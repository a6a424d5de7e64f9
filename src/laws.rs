use vstd::prelude::*;
use crate::model::{epoch_spec, is_latest, sum_sizes, ts_le, FileInfo, Probe, Timestamp};
use crate::render::shown;
use crate::size::{pow, unit_index, unit_index_from};
use crate::tree::{built_from, children_built_from, children_made, children_witness, size_before};

verus! {

/// The directory's metadata as the walk saw it.
pub open spec fn is_dir_entry(p: Probe) -> bool {
    match p.meta {
        Some(m) => m.is_dir && !m.is_file,
        None => false,
    }
}

pub open spec fn own_len(p: Probe) -> int {
    match p.meta {
        Some(m) => m.len as int,
        None => 0,
    }
}

/// No modification time anywhere in the tree of `n` is later than `t`.
pub open spec fn none_later(n: FileInfo, t: Timestamp) -> bool
    decreases n,
{
    &&& ts_le(n.modified, t)
    &&& match n.children {
        Some(cs) => forall|i: int| 0 <= i < cs@.len() ==> none_later(#[trigger] cs@[i], t),
        None => true,
    }
}

/// A directory's size is its own metadata length plus the sizes of its
/// children.
pub proof fn lemma_dir_size(n: FileInfo, p: Probe, depth: int, ascending: bool, through_link: bool)
    requires
        built_from(n, p, depth, ascending, through_link),
        is_dir_entry(p),
    ensures
        n.children matches Some(cs) && n.size == own_len(p) + sum_sizes(cs@),
{
}

proof fn lemma_none_later_weaken(n: FileInfo, t: Timestamp, u: Timestamp)
    requires
        none_later(n, t),
        ts_le(t, u),
    ensures
        none_later(n, u),
    decreases n,
{
    if let Some(cs) = n.children {
        assert forall|i: int| 0 <= i < cs@.len() implies none_later(#[trigger] cs@[i], u) by {
            assert(decreases_to!(n => n.children));
            assert(decreases_to!(n.children => n.children->Some_0));
            assert(decreases_to!(cs => cs@));
            lemma_none_later_weaken(cs@[i], t, u);
        }
    }
}

/// A node's time is the latest time found anywhere in its tree (the epoch
/// where none is later): nothing below it is later, and it is the epoch or
/// the time of one of its children; a directory with no children has the
/// epoch.
pub proof fn lemma_latest_in_tree(n: FileInfo, p: Probe, depth: int, ascending: bool, through_link: bool)
    requires
        built_from(n, p, depth, ascending, through_link),
    ensures
        none_later(n, n.modified),
        n.children matches Some(cs) ==> is_latest(n.modified, cs@),
        n.children matches Some(cs) ==> (cs@.len() == 0 ==> n.modified == epoch_spec()),
    decreases n,
{
    let m = p.meta->Some_0;
    if m.is_file {
    } else if let Some(cs) = n.children {
        let through = through_link || m.link.is_symlink;
        assert forall|i: int| 0 <= i < cs@.len() implies none_later(#[trigger] cs@[i], n.modified) by {
            assert(decreases_to!(n => n.children));
            assert(decreases_to!(n.children => n.children->Some_0));
            assert(decreases_to!(cs => cs@));
            match m.listing {
                Some(l) => {
                    assert(children_built_from(cs@, l@, depth + 1, ascending, through));
                    let w = choose|w: Seq<int>|
                        #[trigger] children_witness(cs@, l@, w, ascending) && children_made(
                            cs@,
                            l@,
                            w,
                            depth + 1,
                            ascending,
                            through,
                        );
                    assert(built_from(cs@[i], l@[w[i]], depth + 1, ascending, through));
                    lemma_latest_in_tree(cs@[i], l@[w[i]], depth + 1, ascending, through);
                    lemma_none_later_weaken(cs@[i], cs@[i].modified, n.modified);
                },
                None => {},
            }
        }
    }
}

/// Children are ordered by size in the requested direction, and children of
/// equal size come in the order of the listing they were made from.
pub proof fn lemma_children_sorted(
    n: FileInfo,
    p: Probe,
    depth: int,
    ascending: bool,
    through_link: bool,
)
    requires
        built_from(n, p, depth, ascending, through_link),
        is_dir_entry(p),
    ensures
        n.children matches Some(cs) && forall|i: int, k: int|
            0 <= i < k < cs@.len() ==> !size_before(#[trigger] cs@[k].size, #[trigger] cs@[i].size, ascending),
        n.children matches Some(cs) && match p.meta->Some_0.listing {
            Some(l) => children_built_from(
                cs@,
                l@,
                depth + 1,
                ascending,
                through_link || p.meta->Some_0.link.is_symlink,
            ),
            None => cs@.len() == 0,
        },
{
    let m = p.meta->Some_0;
    let cs = n.children->Some_0;
    if let Some(l) = m.listing {
        let through = through_link || m.link.is_symlink;
        let w = choose|w: Seq<int>|
            #[trigger] children_witness(cs@, l@, w, ascending) && children_made(
                cs@,
                l@,
                w,
                depth + 1,
                ascending,
                through,
            );
        assert forall|i: int, k: int| 0 <= i < k < cs@.len() implies !size_before(
            #[trigger] cs@[k].size,
            #[trigger] cs@[i].size,
            ascending,
        ) by {
            assert(size_before(cs@[i].size, cs@[k].size, ascending) || cs@[i].size == cs@[k].size);
        }
    }
}

/// A size equal to the unit base stays in the smaller unit; one byte more
/// moves to the next.
pub proof fn lemma_unit_boundary(base: int)
    requires
        base >= 2,
    ensures
        unit_index(base, base) == 0,
        unit_index(base + 1, base) == 1,
{
    reveal_with_fuel(pow, 3);
    assert(pow(base, 2) == base * base);
    assert(base * base >= 2 * base) by (nonlinear_arith)
        requires
            base >= 2,
    ;
    assert(unit_index_from(base + 1, base, 1) == 1);
}

/// No node deeper than the limit is printed.
pub proof fn lemma_shown_within_depth(nodes: Seq<FileInfo>, d: u8)
    ensures
        forall|i: int| 0 <= i < shown(nodes, Some(d)).len() ==> #[trigger] shown(nodes, Some(d))[i].depth <= d,
    decreases nodes,
{
    if nodes.len() > 0 && nodes[0].depth <= d {
        let rest = nodes.subrange(1, nodes.len() as int);
        lemma_shown_within_depth(rest, d);
        match nodes[0].children {
            Some(cs) => {
                assert(decreases_to!(nodes => nodes[0]));
                assert(decreases_to!(nodes[0] => nodes[0].children));
                assert(decreases_to!(nodes[0].children => nodes[0].children->Some_0));
                assert(decreases_to!(cs => cs@));
                lemma_shown_within_depth(cs@, d);
            },
            None => {},
        }
        let s = shown(nodes, Some(d));
        let inner = crate::render::children_shown(nodes[0], Some(d));
        assert(s == seq![nodes[0]] + inner + shown(rest, Some(d)));
        assert forall|i: int| 0 <= i < s.len() implies #[trigger] s[i].depth <= d by {
            if i == 0 {
            } else if i < 1 + inner.len() {
                assert(s[i] == inner[i - 1]);
            } else {
                assert(s[i] == shown(rest, Some(d))[i - 1 - inner.len()]);
            }
        }
    }
}

/// With a depth limit of one, only the root's output is printed.
pub proof fn lemma_depth_one_root_only(n: FileInfo, p: Probe, ascending: bool)
    requires
        built_from(n, p, 1, ascending, false),
    ensures
        shown(seq![n], Some(1u8)) == seq![n],
{
    let s = seq![n];
    assert(s.subrange(1, 1) =~= Seq::<FileInfo>::empty());
    let m = p.meta->Some_0;
    if let Some(cs) = n.children {
        if cs@.len() > 0 {
            if let Some(l) = m.listing {
                let through = m.link.is_symlink;
                let w = choose|w: Seq<int>|
                    #[trigger] children_witness(cs@, l@, w, ascending) && children_made(
                        cs@,
                        l@,
                        w,
                        2,
                        ascending,
                        through,
                    );
                assert(built_from(cs@[0], l@[w[0]], 2, ascending, through));
            }
        }
        assert(shown(cs@, Some(1u8)) =~= Seq::<FileInfo>::empty());
    }
    assert(crate::render::children_shown(n, Some(1u8)) =~= Seq::<FileInfo>::empty());
    assert(shown(s.subrange(1, 1), Some(1u8)) =~= Seq::<FileInfo>::empty());
    assert(shown(s, Some(1u8)) == seq![n] + crate::render::children_shown(n, Some(1u8)) + shown(
        s.subrange(1, 1),
        Some(1u8),
    ));
    assert(shown(seq![n], Some(1u8)) =~= seq![n]);
}

} // verus!
