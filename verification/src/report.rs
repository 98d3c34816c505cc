use crate::session::{id_text, uuid_text};
use crate::storage::Snapshot;
use vstd::prelude::*;
use vstd::string::StrSliceExecFns;
use vstd::string::StringExecFns;

verus! {

/// `s` with a backslash before every double quote.
pub open spec fn escaped(s: Seq<char>) -> Seq<char>
    decreases s.len(),
{
    if s.len() == 0 {
        Seq::empty()
    } else if s.last() == '"' {
        escaped(s.drop_last()) + "\\\""@
    } else {
        escaped(s.drop_last()).push(s.last())
    }
}

/// Writes `value` at the end of `out`, with a backslash before every double quote.
fn push_escaped(out: &mut String, value: &str)
    ensures
        final(out)@ == old(out)@ + escaped(value@),
{
    let ghost start = out@;
    let length = value.unicode_len();
    let mut from: usize = 0;
    let mut seen: usize = 0;
    for c in it: value.chars()
        invariant
            it.seq() == value@,
            seen == it.index(),
            from <= seen <= value@.len(),
            value@.len() == length,
            out@ + value@.subrange(from as int, seen as int) == start + escaped(value@.take(seen as int)),
    {
        let ghost head = value@.take(seen as int);
        let ghost next = value@.take(seen + 1);
        proof {
            assert(next.drop_last() =~= head);
        }
        if c == '"' {
            let ghost held = out@;
            let ghost first = from;
            out.append(value.substring_char(from, seen));
            out.append("\\\"");
            from = seen + 1;
            proof {
                assert(out@ + value@.subrange(from as int, from as int) =~= held + value@.subrange(
                    first as int,
                    seen as int,
                ) + "\\\""@);
            }
        } else {
            proof {
                assert(out@ + value@.subrange(from as int, seen as int).push(c) =~= (out@ + value@.subrange(
                    from as int,
                    seen as int,
                )).push(c));
            }
        }
        seen = seen + 1;
    }
    out.append(value.substring_char(from, seen));
    proof {
        assert(value@.take(seen as int) =~= value@);
    }
}

/// The line that sets `key` to `value` when a shell runs it.
pub fn export_line(key: &str, value: &str) -> (line: String)
    ensures
        line@ == "export "@ + key@ + "=\""@ + escaped(value@) + "\""@,
{
    let mut line = String::from_str("export ");
    line.append(key);
    line.append("=\"");
    push_escaped(&mut line, value);
    line.append("\"");
    line
}

/// The line that shows what a restore would set.
pub fn dry_run_line(key: &str, value: &str) -> (line: String)
    ensures
        line@ == "  "@ + key@ + "="@ + value@,
{
    let mut line = String::from_str("  ");
    line.append(key);
    line.append("=");
    line.append(value);
    line
}

/// The name of a snapshot that was given none, made of the time `stamp`.
pub fn default_snapshot_name(stamp: &str) -> (name: String)
    ensures
        name@ == "snapshot-"@ + stamp@,
{
    let mut name = String::from_str("snapshot-");
    name.append(stamp);
    name
}

/// What a listing says of the scope of a snapshot, seen from the session `current`.
pub open spec fn scope_text(owner: Option<u128>, current: Option<u128>) -> Seq<char> {
    match owner {
        Some(id) => if current == Some(id) {
            " (this session)"@
        } else {
            " (session: "@ + uuid_text(id) + ")"@
        },
        None => " (global)"@,
    }
}

/// What a listing says of the description of a snapshot.
pub open spec fn description_text(description: Option<Seq<char>>) -> Seq<char> {
    match description {
        Some(d) => " - "@ + d,
        None => Seq::empty(),
    }
}

/// The line that shows `snapshot` in a listing, with `stamp` as the time at
/// which it was made, seen from the session `current`.
pub fn snapshot_line(snapshot: &Snapshot, stamp: &str, current: Option<u128>) -> (line: String)
    ensures
        line@ == "  "@ + snapshot@.name + " - "@ + stamp@ + scope_text(snapshot@.session_id, current)
            + description_text(snapshot@.description),
{
    let mut line = String::from_str("  ");
    line.append(snapshot.name.as_str());
    line.append(" - ");
    line.append(stamp);
    match snapshot.session_id {
        Some(id) => {
            let here = match current {
                Some(c) => c == id,
                None => false,
            };
            if here {
                line.append(" (this session)");
            } else {
                line.append(" (session: ");
                line.append(id_text(id).as_str());
                line.append(")");
            }
        },
        None => {
            line.append(" (global)");
        },
    }
    if let Some(d) = &snapshot.description {
        line.append(" - ");
        line.append(d.as_str());
    }
    line
}

} // verus!
