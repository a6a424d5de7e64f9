use vstd::prelude::*;
use vstd::string::StringExecFns;
use crate::model::{ByteType, Cli, FileInfo, ItemType, Probe, Timestamp, WalkError};
use crate::tree::{built_from, fault, kept, walk};
use crate::path::{hidden_spec, pretty_spec};
use crate::size::{format_size, size_text};
use crate::text::{digits, pad_left, padded_digits, push_digits};

verus! {

/// The calendar text (`YYYY Mon DD HH:MM:SS`, UTC) of a point in time.
pub uninterp spec fn utc_text(secs: i64, nanos: u32) -> Seq<char>;

/// Relies on chrono's `DateTime::<Utc>::from_timestamp` (the point in time, or
/// `None` outside chrono's calendar range) and `format`, which writes it as
/// `%Y %b %d %H:%M:%S`.
#[verifier::external_body]
fn utc_time_text(t: &Timestamp) -> (r: Option<String>)
    ensures
        r matches Some(x) ==> x@ == utc_text(t.secs, t.nanos),
{
    match chrono::DateTime::from_timestamp(t.secs, t.nanos) {
        Some(d) => Some(d.format("%Y %b %d %H:%M:%S").to_string()),
        None => None,
    }
}

/// 256-colour code of a line, by kind and by whether the entry is hidden.
pub open spec fn colour_code(kind: ItemType, hidden: bool) -> nat {
    match kind {
        ItemType::File => if hidden { 244 } else { 7 },
        ItemType::Dir => if hidden { 74 } else { 39 },
        ItemType::Symlink => if hidden { 70 } else { 10 },
    }
}

/// Colour of a line, by kind and by whether the entry is hidden.
pub fn colour_of(kind: ItemType, hidden: bool) -> (r: u8)
    ensures
        r == colour_code(kind, hidden),
{
    match kind {
        ItemType::File => if hidden { 244 } else { 7 },
        ItemType::Dir => if hidden { 74 } else { 39 },
        ItemType::Symlink => if hidden { 70 } else { 10 },
    }
}

/// The size field: humanized, or the byte count right-aligned in seven
/// characters.
pub open spec fn size_field(size: u64, humanize: bool, byte_type: ByteType) -> Seq<char> {
    if humanize {
        size_text(size as int, byte_type)
    } else {
        pad_left(digits(size as nat), 7)
    }
}

/// The output for one node: size, two spaces, the time and two spaces where
/// one is given, the path as shown, all in the node's colour; then, for a
/// directory whose contents could not be read, a second line saying so.
pub open spec fn line_text(
    n: FileInfo,
    humanize: bool,
    byte_type: ByteType,
    time: Option<Seq<char>>,
) -> Seq<char> {
    let time_field = match time {
        Some(t) => t + "  "@,
        None => Seq::empty(),
    };
    let body = size_field(n.size, humanize, byte_type) + "  "@ + time_field + pretty_spec(n.path@);
    let line = "\x1b[38;5;"@ + digits(colour_code(n.file_type, hidden_spec(n.path@))) + "m"@ + body
        + "\x1b[0m"@;
    if n.accessible {
        line
    } else {
        line + "\n  \x1b[38;5;3mCould not access contents\x1b[0m"@
    }
}

pub open spec fn opt_text(t: Option<String>) -> Option<Seq<char>> {
    match t {
        Some(s) => Some(s@),
        None => None,
    }
}

/// The output for one node, given the text of its time (or none).
pub fn render_line(
    info: &FileInfo,
    humanize: bool,
    byte_type: &ByteType,
    time: &Option<String>,
) -> (r: String)
    ensures
        r@ == line_text(*info, humanize, *byte_type, opt_text(*time)),
{
    let mut body = if humanize {
        format_size(info.size, byte_type)
    } else {
        padded_digits(info.size as u128, 7)
    };
    body.append("  ");
    match time {
        Some(t) => {
            body.append(t.as_str());
            body.append("  ");
        },
        None => {},
    }
    body.append(info.pretty_path());
    let hidden = info.is_hidden();
    let mut s = String::from_str("\x1b[38;5;");
    push_digits(&mut s, colour_of(info.file_type, hidden) as u128);
    s.append("m");
    s.append(body.as_str());
    s.append("\x1b[0m");
    if !info.accessible {
        s.append("\n  \x1b[38;5;3mCould not access contents\x1b[0m");
    }
    proof {
        let t = opt_text(*time);
        let time_field = match t {
            Some(x) => x + "  "@,
            None => Seq::<char>::empty(),
        };
        assert(body@ =~= size_field(info.size, humanize, *byte_type) + "  "@ + time_field + pretty_spec(
            info.path@,
        ));
        assert(s@ =~= line_text(*info, humanize, *byte_type, t));
    }
    s
}

/// The output for one node, with its time where `show_ts` asks for it.
pub open spec fn node_line(n: FileInfo, humanize: bool, byte_type: ByteType, show_ts: bool) -> Seq<
    char,
> {
    line_text(
        n,
        humanize,
        byte_type,
        if show_ts {
            Some(utc_text(n.modified.secs, n.modified.nanos))
        } else {
            None
        },
    )
}

impl FileInfo {
    /// The output for this node; `None` only where its time lies outside the
    /// calendar's range.
    pub fn to_string(&self, humanize: bool, byte_type: &ByteType, show_ts: bool) -> (r: Option<
        String,
    >)
        ensures
            !show_ts ==> r is Some,
            r matches Some(x) ==> x@ == node_line(*self, humanize, *byte_type, show_ts),
    {
        if show_ts {
            match utc_time_text(&self.modified) {
                Some(t) => Some(render_line(self, humanize, byte_type, &Some(t))),
                None => None,
            }
        } else {
            Some(render_line(self, humanize, byte_type, &None))
        }
    }
}

} // verus!

verus! {

/// The node lies deeper than the depth limit.
pub open spec fn too_deep(depth: u8, max_depth: Option<u8>) -> bool {
    match max_depth {
        Some(d) => d < depth,
        None => false,
    }
}

/// The nodes whose lines are printed, in order: depth first, each node before
/// its children; at the first node deeper than the limit, the rest of its
/// level is left out.
pub open spec fn shown(nodes: Seq<FileInfo>, max_depth: Option<u8>) -> Seq<FileInfo>
    decreases nodes, 1int,
{
    if nodes.len() == 0 {
        Seq::empty()
    } else if too_deep(nodes[0].depth, max_depth) {
        Seq::empty()
    } else {
        seq![nodes[0]] + children_shown(nodes[0], max_depth) + shown(nodes.subrange(1, nodes.len() as int), max_depth)
    }
}

/// The shown nodes below `n`.
pub open spec fn children_shown(n: FileInfo, max_depth: Option<u8>) -> Seq<FileInfo>
    decreases n, 0int,
{
    match n.children {
        Some(cs) => shown(cs@, max_depth),
        None => Seq::empty(),
    }
}

/// The printed output of the nodes in `s`, one entry per node.
pub open spec fn lines_of(s: Seq<FileInfo>, humanize: bool, byte_type: ByteType, show_ts: bool) -> Seq<
    Seq<char>,
> {
    s.map_values(|n: FileInfo| node_line(n, humanize, byte_type, show_ts))
}

pub open spec fn texts(v: Seq<String>) -> Seq<Seq<char>> {
    v.map_values(|s: String| s@)
}

fn render_into(
    nodes: &Vec<FileInfo>,
    humanize: bool,
    byte_type: &ByteType,
    show_ts: bool,
    max_depth: Option<u8>,
    out: &mut Vec<String>,
) -> (ok: bool)
    ensures
        ok ==> texts(final(out)@) == texts(old(out)@) + lines_of(
            shown(nodes@, max_depth),
            humanize,
            *byte_type,
            show_ts,
        ),
        !ok ==> show_ts,
    decreases nodes@,
{
    let ghost start = texts(out@);
    let mut i: usize = 0;
    proof {
        assert(nodes@.subrange(0, nodes@.len() as int) =~= nodes@);
        assert(texts(out@) =~= start + Seq::empty());
    }
    while i < nodes.len()
        invariant
            start == texts(old(out)@),
            i <= nodes@.len(),
            start + lines_of(shown(nodes@, max_depth), humanize, *byte_type, show_ts) == texts(out@)
                + lines_of(
                shown(nodes@.subrange(i as int, nodes@.len() as int), max_depth),
                humanize,
                *byte_type,
                show_ts,
            ),
        decreases nodes@.len() - i,
    {
        let ghost rest = nodes@.subrange(i as int, nodes@.len() as int);
        let ghost later = nodes@.subrange(i + 1, nodes@.len() as int);
        proof {
            assert(rest[0] == nodes@[i as int]);
            assert(rest.subrange(1, rest.len() as int) =~= later);
        }
        let info = &nodes[i];
        let over = match max_depth {
            Some(d) => d < info.depth,
            None => false,
        };
        if over {
            proof {
                assert(shown(rest, max_depth) == Seq::<FileInfo>::empty());
                assert(lines_of(shown(rest, max_depth), humanize, *byte_type, show_ts) =~= Seq::empty());
                assert(texts(out@) + lines_of(shown(rest, max_depth), humanize, *byte_type, show_ts)
                    =~= texts(out@));
                assert(texts(out@) == start + lines_of(shown(nodes@, max_depth), humanize, *byte_type, show_ts));
            }
            return true;
        }
        let line = match info.to_string(humanize, byte_type, show_ts) {
            Some(s) => s,
            None => { return false; },
        };
        let ghost before = texts(out@);
        out.push(line);
        proof {
            assert(texts(out@) =~= before.push(node_line(*info, humanize, *byte_type, show_ts)));
        }
        match &info.children {
            Some(cs) => {
                proof {
                    assert(decreases_to!(nodes@ => nodes@[i as int]));
                    assert(decreases_to!(nodes@[i as int] => nodes@[i as int].children));
                    assert(decreases_to!(nodes@[i as int].children => nodes@[i as int].children->Some_0));
                    assert(decreases_to!(*cs => cs@));
                }
                if !render_into(cs, humanize, byte_type, show_ts, max_depth, out) {
                    return false;
                }
            },
            None => {},
        }
        proof {
            let inner = children_shown(*info, max_depth);
            assert(shown(rest, max_depth) == seq![*info] + inner + shown(later, max_depth));
            assert(lines_of(seq![*info] + inner + shown(later, max_depth), humanize, *byte_type, show_ts)
                =~= seq![node_line(*info, humanize, *byte_type, show_ts)] + lines_of(inner, humanize, *byte_type, show_ts)
                + lines_of(shown(later, max_depth), humanize, *byte_type, show_ts));
            assert(texts(out@) =~= before.push(node_line(*info, humanize, *byte_type, show_ts)) + lines_of(
                inner,
                humanize,
                *byte_type,
                show_ts,
            ));
        }
        i = i + 1;
    }
    proof {
        assert(nodes@.subrange(i as int, nodes@.len() as int) =~= Seq::<FileInfo>::empty());
        assert(lines_of(Seq::empty(), humanize, *byte_type, show_ts) =~= Seq::empty());
        assert(texts(out@) + Seq::empty() =~= texts(out@));
    }
    true
}

/// The printed lines of a tree, depth first and each node before its
/// children, stopping at a level when a node is deeper than `max_depth`;
/// `None` only where some time lies outside the calendar's range.
pub fn print_results(
    path_info: &Vec<FileInfo>,
    humanize: bool,
    si: bool,
    show_ts: bool,
    max_depth: Option<u8>,
) -> (r: Option<Vec<String>>)
    ensures
        !show_ts ==> r is Some,
        r matches Some(v) ==> texts(v@) == lines_of(
            shown(path_info@, max_depth),
            humanize,
            if si { ByteType::Decimal } else { ByteType::Binary },
            show_ts,
        ),
{
    let byte_type = if si {
        ByteType::Decimal
    } else {
        ByteType::Binary
    };
    let mut out: Vec<String> = Vec::new();
    proof {
        assert(texts(out@) =~= Seq::empty());
    }
    if render_into(path_info, humanize, &byte_type, show_ts, max_depth, &mut out) {
        proof {
            assert(Seq::<Seq<char>>::empty() + lines_of(shown(path_info@, max_depth), humanize, byte_type, show_ts)
                =~= lines_of(shown(path_info@, max_depth), humanize, byte_type, show_ts));
        }
        Some(out)
    } else {
        None
    }
}

} // verus!

verus! {

/// The nodes that the walk makes of the root entry: none or one.
pub open spec fn root_nodes(tree: Seq<FileInfo>, root: Probe, ascending: bool) -> bool {
    if kept(root) {
        tree.len() == 1 && built_from(tree[0], root, 1, ascending, false)
    } else {
        tree.len() == 0
    }
}

/// Walks the root entry and renders the result under the options of `cli`:
/// an error where the walk must stop, `Ok(None)` only where a time lies
/// outside the calendar's range.
pub fn list_files(cli: &Cli, root: &Probe) -> (r: Result<Option<Vec<String>>, WalkError>)
    ensures
        r is Err <==> fault(*root, 1, false),
        r matches Ok(None) ==> cli.time,
        r matches Ok(Some(v)) ==> exists|tree: Seq<FileInfo>|
            {
                &&& root_nodes(tree, *root, cli.ascending)
                &&& texts(v@) == lines_of(
                    shown(tree, cli.max_depth),
                    cli.humanize,
                    if cli.si { ByteType::Decimal } else { ByteType::Binary },
                    cli.time,
                )
            },
{
    let mut all_file_info: Vec<FileInfo> = Vec::new();
    match walk(root, 1, cli.ascending, false) {
        Err(e) => { return Err(e); },
        Ok(None) => {},
        Ok(Some(n)) => { all_file_info.push(n); },
    }
    proof {
        assert(root_nodes(all_file_info@, *root, cli.ascending));
    }
    Ok(print_results(&all_file_info, cli.humanize, cli.si, cli.time, cli.max_depth))
}

} // verus!
