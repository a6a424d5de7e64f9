use vstd::prelude::*;
use crate::model::{
    epoch_spec, is_latest, sum_sizes, ts_le, FileInfo, ItemType, LinkStat, Meta, Probe, Timestamp,
    WalkError,
};

verus! {

broadcast use vstd::std_specs::vec::group_vec_axioms;

/// Kind of an entry: everything reached through a link is a `Symlink`;
/// otherwise the lookup of the path itself decides.
pub open spec fn kind_spec(through_link: bool, l: LinkStat) -> Option<ItemType> {
    if through_link {
        Some(ItemType::Symlink)
    } else if l.is_file {
        Some(ItemType::File)
    } else if l.is_dir {
        Some(ItemType::Dir)
    } else if l.is_symlink {
        Some(ItemType::Symlink)
    } else {
        None
    }
}

/// Classifies an entry; `None` where its own lookup matches no kind.
pub fn get_file_type(through_link: bool, l: LinkStat) -> (r: Option<ItemType>)
    ensures
        r == kind_spec(through_link, l),
{
    if through_link {
        Some(ItemType::Symlink)
    } else if l.is_file {
        Some(ItemType::File)
    } else if l.is_dir {
        Some(ItemType::Dir)
    } else if l.is_symlink {
        Some(ItemType::Symlink)
    } else {
        None
    }
}

/// `a` comes strictly before `b` in the requested direction.
pub open spec fn size_before(a: u64, b: u64, ascending: bool) -> bool {
    if ascending { a < b } else { a > b }
}

fn comes_before(a: u64, b: u64, ascending: bool) -> (r: bool)
    ensures
        r == size_before(a, b, ascending),
{
    if ascending { a < b } else { a > b }
}

/// Some entry of `idx` is `q`.
pub open spec fn hits(idx: Seq<int>, q: int) -> bool {
    exists|i: int| 0 <= i < idx.len() && #[trigger] idx[i] == q
}

/// `out` is `input` rearranged by `idx` (`out[i] == input[idx[i]]`), ordered by
/// size in the requested direction, entries of equal size in input order.
pub open spec fn stable_by_size(
    input: Seq<FileInfo>,
    out: Seq<FileInfo>,
    idx: Seq<int>,
    ascending: bool,
) -> bool {
    &&& out.len() == input.len()
    &&& idx.len() == out.len()
    &&& forall|i: int| 0 <= i < idx.len() ==> 0 <= #[trigger] idx[i] < input.len()
    &&& forall|i: int| 0 <= i < idx.len() ==> #[trigger] out[i] == input[idx[i]]
    &&& forall|i: int, j: int| 0 <= i < j < idx.len() ==> #[trigger] idx[i] != #[trigger] idx[j]
    &&& forall|q: int| 0 <= q < input.len() ==> #[trigger] hits(idx, q)
    &&& forall|i: int, j: int|
        0 <= i < j < out.len() ==> size_before(#[trigger] out[i].size, #[trigger] out[j].size, ascending)
            || (out[i].size == out[j].size && idx[i] < idx[j])
}

proof fn lemma_sum_insert(s: Seq<FileInfo>, i: int, x: FileInfo)
    requires
        0 <= i <= s.len(),
    ensures
        sum_sizes(s.insert(i, x)) == sum_sizes(s) + x.size,
    decreases s.len(),
{
    if i == s.len() {
        assert(s.insert(i, x).drop_last() =~= s);
    } else {
        lemma_sum_insert(s.drop_last(), i, x);
        assert(s.insert(i, x).drop_last() =~= s.drop_last().insert(i, x));
    }
}

/// Sorts by size in the requested direction; equal sizes keep their order.
fn sort_by_size(input: Vec<FileInfo>, ascending: bool) -> (out: Vec<FileInfo>)
    ensures
        exists|idx: Seq<int>| stable_by_size(input@, out@, idx, ascending),
        sum_sizes(out@) == sum_sizes(input@),
{
    let ghost whole = input@;
    let mut rest = input;
    let mut out: Vec<FileInfo> = Vec::new();
    let ghost mut idx: Seq<int> = Seq::empty();
    proof {
        assert(rest@.subrange(0, rest@.len() as int) =~= rest@);
    }
    while rest.len() > 0
        invariant
            rest@ == whole.subrange(0, rest@.len() as int),
            out@.len() + rest@.len() == whole.len(),
            idx.len() == out@.len(),
            forall|i: int| 0 <= i < idx.len() ==> rest@.len() <= #[trigger] idx[i] < whole.len(),
            forall|i: int| 0 <= i < idx.len() ==> #[trigger] out@[i] == whole[idx[i]],
            forall|i: int, j: int| 0 <= i < j < idx.len() ==> #[trigger] idx[i] != #[trigger] idx[j],
            forall|q: int| rest@.len() <= q < whole.len() ==> #[trigger] hits(idx, q),
            forall|i: int, j: int|
                0 <= i < j < out@.len() ==> size_before(#[trigger] out@[i].size, #[trigger] out@[j].size, ascending)
                    || (out@[i].size == out@[j].size && idx[i] < idx[j]),
            sum_sizes(out@) + sum_sizes(rest@) == sum_sizes(whole),
        decreases rest.len(),
    {
        let ghost k = rest@.len() - 1;
        let ghost before_rest = rest@;
        let x = rest.pop().unwrap();
        proof {
            assert(before_rest.drop_last() == rest@);
            assert(rest@ =~= whole.subrange(0, rest@.len() as int));
            assert(x == whole[k]);
        }
        let mut pos: usize = 0;
        while pos < out.len() && comes_before(out[pos].size, x.size, ascending)
            invariant
                pos <= out@.len(),
                forall|i: int| 0 <= i < pos ==> size_before(#[trigger] out@[i].size, x.size, ascending),
            decreases out@.len() - pos,
        {
            pos = pos + 1;
        }
        let ghost old_out = out@;
        let ghost old_idx = idx;
        proof {
            lemma_sum_insert(old_out, pos as int, x);
            idx = old_idx.insert(pos as int, k);
        }
        out.insert(pos, x);
        proof {
            assert forall|i: int, j: int| 0 <= i < j < out@.len() implies size_before(
                #[trigger] out@[i].size,
                #[trigger] out@[j].size,
                ascending,
            ) || (out@[i].size == out@[j].size && idx[i] < idx[j]) by {
                if i < pos && j == pos {
                } else if i == pos && j > pos {
                    if (j - 1) as int > pos as int {
                        assert(size_before(old_out[pos as int].size, old_out[j - 1].size, ascending)
                            || (old_out[pos as int].size == old_out[j - 1].size));
                    }
                } else if i < pos && j > pos {
                } else if i > pos {
                    assert(old_out[i - 1] == out@[i]);
                    assert(old_out[j - 1] == out@[j]);
                } else {
                }
            }
            assert forall|q: int| rest@.len() <= q < whole.len() implies #[trigger] hits(idx, q) by {
                if q == k {
                    assert(idx[pos as int] == q);
                } else {
                    assert(hits(old_idx, q));
                    let i0 = choose|i: int| 0 <= i < old_idx.len() && #[trigger] old_idx[i] == q;
                    if i0 < pos {
                        assert(idx[i0] == q);
                    } else {
                        assert(idx[i0 + 1] == q);
                    }
                }
            }
            assert forall|i: int| 0 <= i < idx.len() implies #[trigger] out@[i] == whole[idx[i]] by {
                if i < pos {
                } else if i == pos {
                } else {
                    assert(out@[i] == old_out[i - 1]);
                }
            }
            assert forall|i: int, j: int| 0 <= i < j < idx.len() implies #[trigger] idx[i]
                != #[trigger] idx[j] by {
                if i < pos && j == pos {
                } else if i == pos {
                    assert(idx[j] == old_idx[j - 1]);
                } else if j < pos {
                } else if i < pos {
                    assert(idx[j] == old_idx[j - 1]);
                } else {
                    assert(idx[i] == old_idx[i - 1]);
                    assert(idx[j] == old_idx[j - 1]);
                }
            }
        }
    }
    proof {
        assert(rest@ =~= Seq::<FileInfo>::empty());
        assert(stable_by_size(whole, out@, idx, ascending));
    }
    out
}

} // verus!

verus! {

proof fn lemma_sum_prefix_le(s: Seq<FileInfo>, i: int)
    requires
        0 <= i <= s.len(),
    ensures
        sum_sizes(s.subrange(0, i)) <= sum_sizes(s),
        sum_sizes(s.subrange(0, i)) >= 0,
    decreases s.len(),
{
    if i == s.len() {
        assert(s.subrange(0, i) =~= s);
        lemma_sum_nonneg(s);
    } else {
        lemma_sum_prefix_le(s.drop_last(), i);
        assert(s.drop_last().subrange(0, i) =~= s.subrange(0, i));
    }
}

proof fn lemma_sum_nonneg(s: Seq<FileInfo>)
    ensures
        sum_sizes(s) >= 0,
    decreases s.len(),
{
    if s.len() > 0 {
        lemma_sum_nonneg(s.drop_last());
    }
}

/// Latest modification time of the entries in `s`, the epoch if none is later.
fn latest_modified(s: &Vec<FileInfo>) -> (r: Timestamp)
    ensures
        is_latest(r, s@),
{
    let mut m = Timestamp::epoch();
    let mut i: usize = 0;
    while i < s.len()
        invariant
            i <= s@.len(),
            is_latest(m, s@.subrange(0, i as int)),
        decreases s@.len() - i,
    {
        let ghost prev = m;
        if m.is_before(&s[i].modified) {
            m = s[i].modified;
        }
        proof {
            let t = s@.subrange(0, i + 1);
            let u = s@.subrange(0, i as int);
            assert forall|k: int| 0 <= k < t.len() implies ts_le(#[trigger] t[k].modified, m) by {
                if k < i {
                    assert(t[k] == u[k]);
                }
            }
            if m != epoch_spec() {
                if m == s@[i as int].modified {
                    assert(t[i as int].modified == m);
                } else {
                    let k = choose|k: int| 0 <= k < u.len() && #[trigger] u[k].modified == prev;
                    assert(t[k] == u[k]);
                }
            }
        }
        i = i + 1;
    }
    proof {
        assert(s@.subrange(0, s@.len() as int) =~= s@);
    }
    m
}

/// Node of a directory: `children` sorted by size in the requested direction
/// (ties in their given order), the size its own length plus the children's,
/// the time the latest of the children's.
pub fn dir_node(
    path: String,
    depth: u8,
    kind: ItemType,
    own_len: u64,
    children: Vec<FileInfo>,
    accessible: bool,
    ascending: bool,
) -> (r: Result<FileInfo, WalkError>)
    ensures
        r is Err <==> own_len + sum_sizes(children@) > u64::MAX,
        r is Err ==> r == Err::<FileInfo, WalkError>(WalkError::SizeOverflow),
        r matches Ok(n) ==> {
            &&& n.path == path
            &&& n.depth == depth
            &&& n.file_type == kind
            &&& n.size == own_len + sum_sizes(children@)
            &&& n.accessible == accessible
            &&& n.children matches Some(cs) && {
                &&& exists|idx: Seq<int>| stable_by_size(children@, cs@, idx, ascending)
                &&& sum_sizes(cs@) == sum_sizes(children@)
                &&& is_latest(n.modified, cs@)
            }
        },
{
    let mut total: u64 = own_len;
    let mut i: usize = 0;
    while i < children.len()
        invariant
            i <= children@.len(),
            total == own_len + sum_sizes(children@.subrange(0, i as int)),
        decreases children@.len() - i,
    {
        proof {
            assert(children@.subrange(0, i + 1).drop_last() =~= children@.subrange(0, i as int));
        }
        let s = children[i].size;
        if total > u64::MAX - s {
            proof {
                lemma_sum_prefix_le(children@, i + 1);
            }
            return Err(WalkError::SizeOverflow);
        }
        total = total + s;
        i = i + 1;
    }
    proof {
        assert(children@.subrange(0, children@.len() as int) =~= children@);
    }
    let ghost given = children@;
    let sorted = sort_by_size(children, ascending);
    let modified = latest_modified(&sorted);
    let ghost idx = choose|idx: Seq<int>| stable_by_size(given, sorted@, idx, ascending);
    let n = FileInfo {
        path,
        depth,
        file_type: kind,
        size: total,
        modified,
        children: Some(sorted),
        accessible,
    };
    proof {
        let cs = n.children.unwrap();
        assert(stable_by_size(given, cs@, idx, ascending));
    }
    Ok(n)
}

/// Node of a file: its length and modification time as the lookup gave them.
pub fn get_file_info(path: &String, depth: u8, m: &Meta, through_link: bool) -> (r: Result<
    FileInfo,
    WalkError,
>)
    ensures
        m.modified is None ==> r == Err::<FileInfo, WalkError>(WalkError::ModifiedUnavailable),
        m.modified is Some && kind_spec(through_link, m.link) is None ==> r == Err::<
            FileInfo,
            WalkError,
        >(WalkError::UnknownKind),
        r matches Ok(n) ==> {
            &&& m.modified == Some(n.modified)
            &&& kind_spec(through_link, m.link) == Some(n.file_type)
            &&& n.path@ == path@
            &&& n.depth == depth
            &&& n.size == m.len
            &&& n.children is None
            &&& n.accessible
        },
        r is Ok <==> (m.modified is Some && kind_spec(through_link, m.link) is Some),
{
    let modified = match m.modified {
        Some(t) => t,
        None => { return Err(WalkError::ModifiedUnavailable); },
    };
    let kind = match get_file_type(through_link, m.link) {
        Some(k) => k,
        None => { return Err(WalkError::UnknownKind); },
    };
    Ok(
        FileInfo {
            path: path.clone(),
            depth,
            file_type: kind,
            size: m.len,
            modified,
            children: None,
            accessible: true,
        },
    )
}

} // verus!

verus! {

/// The entry yields a node: its lookup succeeded and it is a file or a directory.
pub open spec fn kept(p: Probe) -> bool {
    match p.meta {
        Some(m) => m.is_file || m.is_dir,
        None => false,
    }
}

/// Aggregate size of the entry: a file's length; a directory's own length plus
/// the sizes of the entries that yield a node.
pub open spec fn total_size(p: Probe) -> int
    decreases p, 0int,
{
    match p.meta {
        None => 0,
        Some(m) => if m.is_file {
            m.len as int
        } else if m.is_dir {
            match m.listing {
                None => m.len as int,
                Some(l) => m.len + listing_total(l@, l@.len() as int),
            }
        } else {
            0
        },
    }
}

/// Sum of `total_size` over the first `j` entries of `l` that yield a node.
pub open spec fn listing_total(l: Seq<Probe>, j: int) -> int
    decreases l, j,
{
    if j <= 0 || j > l.len() {
        0
    } else {
        listing_total(l, j - 1) + if kept(l[j - 1]) {
            total_size(l[j - 1])
        } else {
            0
        }
    }
}

/// The walk of this entry, at `depth`, ends in an error.
pub open spec fn fault(p: Probe, depth: int, through_link: bool) -> bool
    decreases p, 0int,
{
    match p.meta {
        None => false,
        Some(m) => {
            let through = through_link || m.link.is_symlink;
            if m.is_file {
                m.modified is None || kind_spec(through, m.link) is None
            } else if m.is_dir {
                kind_spec(through, m.link) is None || match m.listing {
                    None => false,
                    Some(l) => (depth >= 255 && l@.len() > 0) || listing_fault(
                        l@,
                        l@.len() as int,
                        depth + 1,
                        through,
                    ) || total_size(p) > u64::MAX,
                }
            } else {
                false
            }
        },
    }
}

/// One of the first `j` entries of `l` ends in an error.
pub open spec fn listing_fault(l: Seq<Probe>, j: int, depth: int, through_link: bool) -> bool
    decreases l, j,
{
    if j <= 0 || j > l.len() {
        false
    } else {
        listing_fault(l, j - 1, depth, through_link) || fault(l[j - 1], depth, through_link)
    }
}

/// `n` is the node that the walk makes of entry `p` at `depth`.
pub open spec fn built_from(n: FileInfo, p: Probe, depth: int, ascending: bool, through_link: bool) -> bool
    decreases n, 0int,
{
    match p.meta {
        None => false,
        Some(m) => {
            let through = through_link || m.link.is_symlink;
            &&& n.path@ == p.path@
            &&& n.depth == depth
            &&& kind_spec(through, m.link) == Some(n.file_type)
            &&& n.size == total_size(p)
            &&& if m.is_file {
                &&& n.children is None
                &&& n.accessible
                &&& n.size == m.len
                &&& m.modified == Some(n.modified)
            } else if m.is_dir {
                match n.children {
                    None => false,
                    Some(cs) => {
                        &&& n.accessible == m.listing is Some
                        &&& n.size == m.len + sum_sizes(cs@)
                        &&& is_latest(n.modified, cs@)
                        &&& match m.listing {
                            None => cs@.len() == 0,
                            Some(l) => children_built_from(cs@, l@, depth + 1, ascending, through),
                        }
                    },
                }
            } else {
                false
            }
        },
    }
}

/// `cs` are the nodes made of the entries of `l` that yield one, each once,
/// sorted by size in the requested direction, ties in listing order.
pub open spec fn children_built_from(
    cs: Seq<FileInfo>,
    l: Seq<Probe>,
    depth: int,
    ascending: bool,
    through_link: bool,
) -> bool
    decreases cs, 1int,
{
    exists|w: Seq<int>|
        #[trigger] children_witness(cs, l, w, ascending) && children_made(cs, l, w, depth, ascending, through_link)
}

/// `cs[i]` is the node made of `l[w[i]]`.
pub open spec fn children_made(
    cs: Seq<FileInfo>,
    l: Seq<Probe>,
    w: Seq<int>,
    depth: int,
    ascending: bool,
    through_link: bool,
) -> bool
    decreases cs, 0int,
{
    forall|i: int|
        0 <= i < w.len() && i < cs.len() && 0 <= w[i] < l.len() ==> built_from(
            #[trigger] cs[i],
            l[w[i]],
            depth,
            ascending,
            through_link,
        )
}

/// `w` maps each of `cs` to an entry of `l`, hits each entry that yields a
/// node once, and `cs` is sorted by size, ties in listing order.
pub open spec fn children_witness(cs: Seq<FileInfo>, l: Seq<Probe>, w: Seq<int>, ascending: bool) -> bool {
    &&& w.len() == cs.len()
    &&& forall|i: int| 0 <= i < w.len() ==> 0 <= #[trigger] w[i] < l.len()
    &&& forall|i: int, k: int| 0 <= i < k < w.len() ==> #[trigger] w[i] != #[trigger] w[k]
    &&& forall|j: int| 0 <= j < l.len() && kept(#[trigger] l[j]) ==> hits(w, j)
    &&& forall|i: int, k: int|
        0 <= i < k < cs.len() ==> size_before(#[trigger] cs[i].size, #[trigger] cs[k].size, ascending)
            || (cs[i].size == cs[k].size && w[i] < w[k])
}

} // verus!

verus! {

proof fn lemma_listing_fault_grows(l: Seq<Probe>, j: int, k: int, depth: int, through_link: bool)
    requires
        0 <= j <= k <= l.len(),
        listing_fault(l, j, depth, through_link),
    ensures
        listing_fault(l, k, depth, through_link),
    decreases k - j,
{
    if j < k {
        lemma_listing_fault_grows(l, j, k - 1, depth, through_link);
    }
}

/// `kids` are the nodes made of the entries of `l` that yield one, in listing
/// order: `kids[i]` is made of `l[pos[i]]`.
pub open spec fn kept_in_order(
    kids: Seq<FileInfo>,
    l: Seq<Probe>,
    pos: Seq<int>,
    upto: int,
    depth: int,
    ascending: bool,
    through_link: bool,
) -> bool {
    &&& pos.len() == kids.len()
    &&& forall|i: int| 0 <= i < pos.len() ==> 0 <= #[trigger] pos[i] < upto
    &&& forall|i: int, k: int| 0 <= i < k < pos.len() ==> pos[i] < pos[k]
    &&& forall|i: int|
        0 <= i < pos.len() ==> built_from(#[trigger] kids[i], l[pos[i]], depth, ascending, through_link)
    &&& forall|jj: int| 0 <= jj < upto && kept(#[trigger] l[jj]) ==> hits(pos, jj)
}

proof fn lemma_sorted_children(
    given: Seq<FileInfo>,
    cs: Seq<FileInfo>,
    idx: Seq<int>,
    pos: Seq<int>,
    l: Seq<Probe>,
    depth: int,
    ascending: bool,
    through_link: bool,
)
    requires
        stable_by_size(given, cs, idx, ascending),
        kept_in_order(given, l, pos, l.len() as int, depth, ascending, through_link),
    ensures
        children_built_from(cs, l, depth, ascending, through_link),
{
    let w = idx.map_values(|x: int| pos[x]);
    assert forall|i: int|
        0 <= i < w.len() implies built_from(#[trigger] cs[i], l[w[i]], depth, ascending, through_link) by {
        assert(cs[i] == given[idx[i]]);
    }
    assert forall|jj: int| 0 <= jj < l.len() && kept(#[trigger] l[jj]) implies hits(w, jj) by {
        assert(hits(pos, jj));
        let q = choose|q: int| 0 <= q < pos.len() && #[trigger] pos[q] == jj;
        assert(hits(idx, q));
        let i = choose|i: int| 0 <= i < idx.len() && #[trigger] idx[i] == q;
        assert(w[i] == jj);
    }
    assert forall|i: int, k: int| 0 <= i < k < w.len() implies #[trigger] w[i] != #[trigger] w[k] by {
        assert(idx[i] != idx[k]);
    }
    assert forall|i: int, k: int|
        0 <= i < k < cs.len() implies size_before(#[trigger] cs[i].size, #[trigger] cs[k].size, ascending)
        || (cs[i].size == cs[k].size && w[i] < w[k]) by {
        assert(idx[i] != idx[k]);
    }
    assert(children_witness(cs, l, w, ascending));
    assert(children_made(cs, l, w, depth, ascending, through_link));
}

/// Walks the entries of a directory listing at `depth`, keeping the nodes
/// that they yield in listing order.
fn walk_listing(
    p: &Probe,
    m: &Meta,
    l: &Vec<Probe>,
    depth: u8,
    sort_ascending: bool,
    through: bool,
) -> (r: Result<Vec<FileInfo>, WalkError>)
    requires
        p.meta == Some(*m),
        m.listing == Some(*l),
    ensures
        r is Err <==> listing_fault(l@, l@.len() as int, depth as int, through),
        r matches Ok(kids) ==> {
            &&& sum_sizes(kids@) == listing_total(l@, l@.len() as int)
            &&& exists|pos: Seq<int>|
                kept_in_order(kids@, l@, pos, l@.len() as int, depth as int, sort_ascending, through)
        },
    decreases p, 0int,
{
    let mut kids: Vec<FileInfo> = Vec::new();
    let ghost mut pos: Seq<int> = Seq::empty();
    let mut j: usize = 0;
    while j < l.len()
        invariant
            p.meta == Some(*m),
            m.listing == Some(*l),
            j <= l@.len(),
            kept_in_order(kids@, l@, pos, j as int, depth as int, sort_ascending, through),
            !listing_fault(l@, j as int, depth as int, through),
            sum_sizes(kids@) == listing_total(l@, j as int),
        decreases l@.len() - j,
    {
        proof {
            assert(decreases_to!(*p => p.meta));
            assert(decreases_to!(p.meta => p.meta->Some_0));
            assert(decreases_to!(p.meta->Some_0 => (p.meta->Some_0).listing));
            assert(decreases_to!((p.meta->Some_0).listing => (p.meta->Some_0).listing->Some_0));
            assert(decreases_to!(*l => l@));
            assert(decreases_to!(l@ => l@[j as int]));
        }
        let ghost old_pos = pos;
        let ghost old_kids = kids@;
        match walk(&l[j], depth, sort_ascending, through) {
            Err(e) => {
                proof {
                    assert(listing_fault(l@, j + 1, depth as int, through));
                    lemma_listing_fault_grows(l@, j + 1, l@.len() as int, depth as int, through);
                }
                return Err(e);
            },
            Ok(None) => {},
            Ok(Some(c)) => {
                proof {
                    pos = pos.push(j as int);
                }
                kids.push(c);
                proof {
                    assert(kids@.drop_last() =~= old_kids);
                }
            },
        }
        proof {
            assert forall|jj: int| 0 <= jj < j + 1 && kept(#[trigger] l@[jj]) implies hits(pos, jj) by {
                if jj == j {
                    assert(pos[pos.len() - 1] == jj);
                } else {
                    assert(hits(old_pos, jj));
                    let i = choose|i: int| 0 <= i < old_pos.len() && #[trigger] old_pos[i] == jj;
                    assert(pos[i] == jj);
                }
            }
            assert forall|i: int| 0 <= i < pos.len() implies built_from(
                #[trigger] kids@[i],
                l@[pos[i]],
                depth as int,
                sort_ascending,
                through,
            ) by {
                if i < old_pos.len() {
                    assert(kids@[i] == old_kids[i]);
                }
            }
        }
        j = j + 1;
    }
    Ok(kids)
}

/// Builds the node of entry `p` at `depth` (the root has depth 1): `Ok(None)`
/// where the entry yields none, an error where the walk must stop.
pub fn walk(p: &Probe, depth: u8, sort_ascending: bool, parent_is_symlink: bool) -> (r: Result<
    Option<FileInfo>,
    WalkError,
>)
    ensures
        r is Err <==> fault(*p, depth as int, parent_is_symlink),
        r matches Ok(None) <==> !fault(*p, depth as int, parent_is_symlink) && !kept(*p),
        r matches Ok(Some(n)) ==> built_from(n, *p, depth as int, sort_ascending, parent_is_symlink),
    decreases p, 1int,
{
    let m = match &p.meta {
        None => { return Ok(None); },
        Some(m) => m,
    };
    let through = parent_is_symlink || m.link.is_symlink;
    if m.is_file {
        return match get_file_info(&p.path, depth, m, through) {
            Ok(n) => Ok(Some(n)),
            Err(e) => Err(e),
        };
    }
    if !m.is_dir {
        return Ok(None);
    }
    let kind = match get_file_type(through, m.link) {
        Some(k) => k,
        None => { return Err(WalkError::UnknownKind); },
    };
    let l = match &m.listing {
        None => {
            let r = dir_node(p.path.clone(), depth, kind, m.len, Vec::new(), false, sort_ascending);
            return match r {
                Ok(n) => {
                    proof {
                        let cs = n.children.unwrap();
                        assert(cs@.len() == 0);
                    }
                    Ok(Some(n))
                },
                Err(e) => Err(e),
            };
        },
        Some(l) => l,
    };
    if depth == 255 && l.len() > 0 {
        return Err(WalkError::TooDeep);
    }
    let kids = if l.len() == 0 {
        let kids: Vec<FileInfo> = Vec::new();
        proof {
            assert(kept_in_order(kids@, l@, Seq::empty(), 0, depth + 1, sort_ascending, through));
        }
        kids
    } else {
        match walk_listing(p, m, l, depth + 1, sort_ascending, through) {
            Ok(kids) => kids,
            Err(e) => { return Err(e); },
        }
    };
    let ghost pos = choose|pos: Seq<int>|
        #[trigger] kept_in_order(kids@, l@, pos, l@.len() as int, depth + 1, sort_ascending, through);
    let ghost given = kids@;
    let r = dir_node(p.path.clone(), depth, kind, m.len, kids, true, sort_ascending);
    match r {
        Ok(n) => {
            proof {
                let cs = n.children.unwrap();
                let idx = choose|idx: Seq<int>| stable_by_size(given, cs@, idx, sort_ascending);
                lemma_sorted_children(given, cs@, idx, pos, l@, depth + 1, sort_ascending, through);
            }
            Ok(Some(n))
        },
        Err(e) => Err(e),
    }
}

} // verus!
