use vstd::prelude::*;
use crate::note::{Note, NoteView, Timestamp};

verus! {

/// How chrono shows a UTC instant given as seconds and nanoseconds since the
/// Unix epoch (`2000-01-12 01:02:03.004 UTC`), or `None` when it holds no
/// such instant.
pub uninterp spec fn utc_text(secs: int, nanos: int) -> Option<Seq<char>>;

/// Relies on chrono's `DateTime::<Utc>::from_timestamp`, which yields an
/// instant for the seconds and nanoseconds or `None`, and on that instant's
/// `Display`: the result depends on the two numbers alone.
#[verifier::external_body]
fn utc_display(secs: i64, nanos: u32) -> (r: Option<String>)
    ensures
        r matches Some(t) ==> utc_text(secs as int, nanos as int) == Some(t@),
        r is None ==> utc_text(secs as int, nanos as int) is None,
{
    match chrono::DateTime::from_timestamp(secs, nanos) {
        Some(t) => Some(t.to_string()),
        None => None,
    }
}

/// The character of a decimal digit.
pub open spec fn digit_char(d: int) -> char {
    seq!['0', '1', '2', '3', '4', '5', '6', '7', '8', '9'][d]
}

/// The decimal digits of a natural number, most significant first.
pub open spec fn nat_digits(n: nat) -> Seq<char>
    decreases n,
{
    if n < 10 {
        seq![digit_char(n as int)]
    } else {
        nat_digits(n / 10).push(digit_char(n as int % 10))
    }
}

/// An integer in decimal, with a leading `-` when negative.
pub open spec fn decimal(n: int) -> Seq<char> {
    if n < 0 {
        seq!['-'] + nat_digits((-n) as nat)
    } else {
        nat_digits(n as nat)
    }
}

fn push_digits(out: &mut String, n: u64)
    ensures
        final(out)@ == old(out)@ + nat_digits(n as nat),
    decreases n,
{
    if n >= 10 {
        push_digits(out, n / 10);
    }
    let digits = "0123456789";
    proof {
        reveal_strlit("0123456789");
    }
    let k = (n % 10) as usize;
    let d = digits.substring_char(k, k + 1);
    assert(d@ =~= seq![digit_char(k as int)]);
    out.append(d);
    proof {
        if n >= 10 {
            assert(nat_digits(n as nat) == nat_digits((n / 10) as nat).push(digit_char(n as int % 10)));
        } else {
            assert(nat_digits(n as nat) == seq![digit_char(n as int)]);
        }
    }
    assert(final(out)@ =~= old(out)@ + nat_digits(n as nat));
}

/// An integer in decimal.
pub fn decimal_text(n: i64) -> (r: String)
    ensures
        r@ == decimal(n as int),
{
    let mut out = String::new();
    if n < 0 {
        out.append("-");
        proof {
            reveal_strlit("-");
        }
        let m: u64 = (0i128 - n as i128) as u64;
        push_digits(&mut out, m);
        assert(out@ =~= decimal(n as int));
    } else {
        push_digits(&mut out, n as u64);
        assert(out@ =~= decimal(n as int));
    }
    out
}

/// `true` or `false` in words.
pub open spec fn bool_word(b: bool) -> Seq<char> {
    if b { seq!['t', 'r', 'u', 'e'] } else { seq!['f', 'a', 'l', 's', 'e'] }
}

/// The lines that show a note, framed by separator lines:
/// `---`, `[id]`, `Title: ..`, `Content: ..`, `Time created: ..`, `Done: ..`, `---`.
pub open spec fn note_block(n: NoteView, created: Seq<char>) -> Seq<char> {
    "---\n["@ + decimal(n.id) + "]\nTitle: "@ + n.title + "\nContent: "@ + n.content
        + "\nTime created: "@ + created + "\nDone: "@ + bool_word(n.done) + "\n---\n"@
}

/// How a note's creation time is shown: chrono's rendering, or the seconds
/// in decimal for an instant chrono cannot represent.
pub open spec fn shown_time(t: Timestamp) -> Seq<char> {
    match utc_text(t.secs as int, t.nanos as int) {
        Some(s) => s,
        None => decimal(t.secs as int),
    }
}

/// The block that shows a note, with its creation time already rendered.
pub fn render_note(note: &Note, created: &str) -> (r: String)
    ensures
        r@ == note_block(note@, created@),
{
    let mut out = String::from_str("---\n[");
    out.append(decimal_text(note.id as i64).as_str());
    out.append("]\nTitle: ");
    out.append(note.title.as_str());
    out.append("\nContent: ");
    out.append(note.content.as_str());
    out.append("\nTime created: ");
    out.append(created);
    out.append("\nDone: ");
    if note.done {
        out.append("true");
        proof {
            reveal_strlit("true");
        }
    } else {
        out.append("false");
        proof {
            reveal_strlit("false");
        }
    }
    out.append("\n---\n");
    out
}

/// The block that shows a note, its creation time rendered by chrono.
pub fn note_text(note: &Note) -> (r: String)
    ensures
        r@ == note_block(note@, shown_time(note.created)),
{
    let created = match utc_display(note.created.secs, note.created.nanos) {
        Some(t) => t,
        None => decimal_text(note.created.secs),
    };
    render_note(note, created.as_str())
}

} // verus!
