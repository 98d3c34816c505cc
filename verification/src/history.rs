use crate::differ::{EnvDiff, EnvDiffView};
use crate::storage::{Action, TimelineEntry};
use vstd::prelude::*;
use vstd::string::StringExecFns;

verus! {

/// The characters of `s`, one by one.
pub fn to_chars(s: &str) -> (chars: Vec<char>)
    ensures
        chars@ == s@,
{
    let mut chars: Vec<char> = Vec::new();
    for c in it: s.chars()
        invariant
            it.seq() == s@,
            chars@ == s@.take(it.index() as int),
    {
        chars.push(c);
    }
    chars
}

/// Whether `part` stands in `whole` at the place `at`.
pub open spec fn stands_at(whole: Seq<char>, part: Seq<char>, at: int) -> bool {
    0 <= at && at + part.len() <= whole.len() && whole.subrange(at, at + part.len()) == part
}

/// Whether `part` stands somewhere in `whole`.
pub open spec fn has_part(whole: Seq<char>, part: Seq<char>) -> bool {
    exists|at: int| stands_at(whole, part, at)
}

/// Whether `part` stands somewhere in `whole`.
pub fn contains_text(whole: &str, part: &str) -> (found: bool)
    ensures
        found == has_part(whole@, part@),
{
    let hay = to_chars(whole);
    let needle = to_chars(part);
    if needle.len() > hay.len() {
        return false;
    }
    if needle.len() == 0 {
        assert(whole@.subrange(0, 0) =~= part@);
        assert(stands_at(whole@, part@, 0));
        return true;
    }
    let last = hay.len() - needle.len();
    let mut at: usize = 0;
    while at <= last
        invariant
            hay@ == whole@,
            needle@ == part@,
            0 < needle@.len() <= hay@.len(),
            hay@.len() <= usize::MAX,
            last == hay@.len() - needle@.len(),
            at <= last + 1,
            forall|k: int| 0 <= k < at ==> !stands_at(whole@, part@, k),
        decreases last + 1 - at,
    {
        let mut n: usize = 0;
        while n < needle.len() && hay[at + n] == needle[n]
            invariant
                hay@ == whole@,
                needle@ == part@,
                at + needle@.len() <= hay@.len(),
                hay@.len() <= usize::MAX,
                n <= needle@.len(),
                forall|k: int| 0 <= k < n ==> hay@[at + k] == needle@[k],
            decreases needle@.len() - n,
        {
            n = n + 1;
        }
        if n == needle.len() {
            assert(whole@.subrange(at as int, at + part@.len()) =~= part@);
            assert(stands_at(whole@, part@, at as int));
            return true;
        }
        assert(!stands_at(whole@, part@, at as int)) by {}
        at = at + 1;
    }
    false
}

/// Whether `c` is one of the ten digits.
pub open spec fn is_digit(c: char) -> bool {
    '0' <= c <= '9'
}

/// How many digits `s` begins with.
pub open spec fn digit_run(s: Seq<char>) -> nat
    decreases s.len(),
{
    if s.len() > 0 && is_digit(s[0]) {
        1 + digit_run(s.drop_first())
    } else {
        0
    }
}

/// The number that a row of digits writes.
pub open spec fn digits_value(s: Seq<char>) -> nat
    decreases s.len(),
{
    if s.len() == 0 {
        0
    } else {
        digits_value(s.drop_last()) * 10 + (s.last() as nat - '0' as nat) as nat
    }
}

/// The number that `s` begins with: that of the digits at its start, where
/// there are any and their number fits.
pub open spec fn leading_number(s: Seq<char>) -> Option<u32> {
    let run = s.take(digit_run(s) as int);
    if run.len() > 0 && digits_value(run) <= u32::MAX {
        Some(digits_value(run) as u32)
    } else {
        None
    }
}

/// Where the first `n` characters are digits and the next is none, `n` digits lead.
proof fn lemma_digit_run(s: Seq<char>, n: int)
    requires
        0 <= n <= s.len(),
        forall|i: int| 0 <= i < n ==> is_digit(#[trigger] s[i]),
        n < s.len() ==> !is_digit(s[n]),
    ensures
        digit_run(s) == n,
    decreases n,
{
    if n > 0 {
        let rest = s.drop_first();
        assert forall|i: int| 0 <= i < n - 1 implies is_digit(#[trigger] rest[i]) by {}
        lemma_digit_run(rest, n - 1);
    }
}

/// The number that `s` begins with.
pub fn parse_number(s: &str) -> (number: Option<u32>)
    ensures
        number == leading_number(s@),
{
    let chars = to_chars(s);
    let mut value: u64 = 0;
    let mut fits = true;
    let mut n: usize = 0;
    while n < chars.len() && chars[n] >= '0' && chars[n] <= '9'
        invariant
            chars@ == s@,
            n <= chars@.len(),
            forall|i: int| 0 <= i < n ==> is_digit(#[trigger] s@[i]),
            fits ==> value == digits_value(s@.take(n as int)) && value <= u32::MAX,
            !fits ==> digits_value(s@.take(n as int)) > u32::MAX,
        decreases chars@.len() - n,
    {
        let digit = (chars[n] as u32 - '0' as u32) as u64;
        proof {
            let next = s@.take(n + 1);
            assert(next.drop_last() =~= s@.take(n as int));
        }
        if fits {
            let grown = value * 10 + digit;
            if grown > 0xffff_ffff {
                fits = false;
            } else {
                value = grown;
            }
        }
        n = n + 1;
    }
    proof {
        lemma_digit_run(s@, n as int);
    }
    if n > 0 && fits {
        Some(value as u32)
    } else {
        None
    }
}

/// Whether an entry is recent enough for `since`, which gives a number of
/// hours or of days: fewer whole hours, or days, than that have passed since
/// the entry. Where `since` gives neither, a day's worth of hours counts.
pub open spec fn recent(elapsed_hours: i64, elapsed_days: i64, since: Seq<char>) -> bool {
    if has_part(since, "hour"@) && leading_number(since) is Some {
        elapsed_hours < leading_number(since)->0
    } else if !has_part(since, "hour"@) && has_part(since, "day"@) && leading_number(since) is Some {
        elapsed_days < leading_number(since)->0
    } else {
        elapsed_hours < 24
    }
}

/// Whether an entry is recent enough for `since`, given the whole hours and
/// the whole days that have passed since the entry.
pub fn matches_since(elapsed_hours: i64, elapsed_days: i64, since: &str) -> (matches: bool)
    ensures
        matches == recent(elapsed_hours, elapsed_days, since@),
{
    if contains_text(since, "hour") {
        if let Some(hours) = parse_number(since) {
            return elapsed_hours < hours as i64;
        }
    } else if contains_text(since, "day") {
        if let Some(days) = parse_number(since) {
            return elapsed_days < days as i64;
        }
    }
    elapsed_hours < 24
}

/// Whether an entry is to be shown: it is recent enough, where that is
/// asked for, and its name holds `grep`, where that is asked for.
pub fn entry_passes(entry: &TimelineEntry, recent_enough: bool, grep: Option<&str>) -> (shown: bool)
    ensures
        shown == (recent_enough && match grep {
            Some(part) => has_part(entry@.key, part@),
            None => true,
        }),
{
    if !recent_enough {
        return false;
    }
    match grep {
        Some(part) => contains_text(entry.key.as_str(), part),
        None => true,
    }
}

/// The word for an action.
pub open spec fn action_word(action: Action) -> Seq<char> {
    match action {
        Action::SetVar => "SET"@,
        Action::Unset => "UNSET"@,
    }
}

/// The value of an entry, as it is shown.
pub open spec fn value_note(value: Option<Seq<char>>) -> Seq<char> {
    match value {
        Some(v) => " = "@ + v,
        None => Seq::empty(),
    }
}

/// The value before an entry, as it is shown.
pub open spec fn prev_note(prev: Option<Seq<char>>) -> Seq<char> {
    match prev {
        Some(p) => " (was: "@ + p + ")"@,
        None => Seq::empty(),
    }
}

/// Writes the value of an entry, and the value before it, at the end of `line`.
fn push_notes(line: &mut String, entry: &TimelineEntry)
    ensures
        final(line)@ == old(line)@ + value_note(entry@.value) + prev_note(entry@.prev),
{
    if let Some(v) = &entry.value {
        line.append(" = ");
        line.append(v.as_str());
    }
    if let Some(p) = &entry.prev {
        line.append(" (was: ");
        line.append(p.as_str());
        line.append(")");
    }
}

/// Writes the word for `action` at the end of `line`.
fn push_action(line: &mut String, action: Action)
    ensures
        final(line)@ == old(line)@ + action_word(action),
{
    match action {
        Action::SetVar => line.append("SET"),
        Action::Unset => line.append("UNSET"),
    }
}

/// The line that shows `entry` in the log, with `stamp` as its time.
pub fn log_line(stamp: &str, entry: &TimelineEntry) -> (line: String)
    ensures
        line@ == "["@ + stamp@ + "] "@ + action_word(entry@.action) + " "@ + entry@.key + " "@ + value_note(
            entry@.value,
        ) + prev_note(entry@.prev),
{
    let mut line = String::from_str("[");
    line.append(stamp);
    line.append("] ");
    push_action(&mut line, entry.action);
    line.append(" ");
    line.append(entry.key.as_str());
    line.append(" ");
    push_notes(&mut line, entry);
    line
}

/// The line that shows `entry` in the history of its variable, with `stamp` as its time.
pub fn show_line(stamp: &str, entry: &TimelineEntry) -> (line: String)
    ensures
        line@ == "  ["@ + stamp@ + "] "@ + action_word(entry@.action) + " "@ + value_note(entry@.value)
            + prev_note(entry@.prev),
{
    let mut line = String::from_str("  [");
    line.append(stamp);
    line.append("] ");
    push_action(&mut line, entry.action);
    line.append(" ");
    push_notes(&mut line, entry);
    line
}

/// The line that shows one finding in the status; an unchanged variable has none.
pub open spec fn status_text(d: EnvDiffView) -> Option<Seq<char>> {
    match d {
        EnvDiffView::Added { key, value } => Some("+ "@ + key + ": "@ + value),
        EnvDiffView::Removed { key, old_value } => Some("- "@ + key + ": "@ + old_value),
        EnvDiffView::Changed { key, old_value, new_value } => Some(
            "~ "@ + key + ": "@ + old_value + " -> "@ + new_value,
        ),
        EnvDiffView::Unchanged { .. } => None,
    }
}

/// The line that shows `diff` in the status, if it is shown.
pub fn status_line(diff: &EnvDiff) -> (line: Option<String>)
    ensures
        crate::storage::opt_text(line) == status_text(diff@),
{
    match diff {
        EnvDiff::Added { key, value } => {
            let mut line = String::from_str("+ ");
            line.append(key.as_str());
            line.append(": ");
            line.append(value.as_str());
            Some(line)
        },
        EnvDiff::Removed { key, old_value } => {
            let mut line = String::from_str("- ");
            line.append(key.as_str());
            line.append(": ");
            line.append(old_value.as_str());
            Some(line)
        },
        EnvDiff::Changed { key, old_value, new_value } => {
            let mut line = String::from_str("~ ");
            line.append(key.as_str());
            line.append(": ");
            line.append(old_value.as_str());
            line.append(" -> ");
            line.append(new_value.as_str());
            Some(line)
        },
        EnvDiff::Unchanged { .. } => None,
    }
}

} // verus!
