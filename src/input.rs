use vstd::prelude::*;

verus! {

/// A character with the Unicode `White_Space` property, the set that
/// `char::is_whitespace` tests.
pub open spec fn is_space(c: char) -> bool {
    let u = c as u32;
    ||| 0x09 <= u <= 0x0d
    ||| u == 0x20
    ||| u == 0x85
    ||| u == 0xa0
    ||| u == 0x1680
    ||| 0x2000 <= u <= 0x200a
    ||| u == 0x2028
    ||| u == 0x2029
    ||| u == 0x202f
    ||| u == 0x205f
    ||| u == 0x3000
}

/// The text without its trailing whitespace.
pub open spec fn trimmed_end(s: Seq<char>) -> Seq<char>
    decreases s.len(),
{
    if s.len() > 0 && is_space(s.last()) {
        trimmed_end(s.drop_last())
    } else {
        s
    }
}

fn space(c: char) -> (r: bool)
    ensures
        r == is_space(c),
{
    let u = c as u32;
    (0x09 <= u && u <= 0x0d) || u == 0x20 || u == 0x85 || u == 0xa0 || u == 0x1680
        || (0x2000 <= u && u <= 0x200a) || u == 0x2028 || u == 0x2029 || u == 0x202f
        || u == 0x205f || u == 0x3000
}

/// A line of console input without its trailing whitespace (and so without
/// its line break).
pub fn trim_line(line: &str) -> (r: String)
    ensures
        r@ == trimmed_end(line@),
{
    let mut n: usize = line.unicode_len();
    assert(line@.subrange(0, n as int) =~= line@);
    while n > 0 && space(line.get_char(n - 1))
        invariant
            n <= line@.len(),
            trimmed_end(line@) == trimmed_end(line@.subrange(0, n as int)),
        decreases n,
    {
        assert(line@.subrange(0, n as int).drop_last() =~= line@.subrange(0, n as int - 1));
        n -= 1;
    }
    String::from_str(line.substring_char(0, n))
}

/// A decimal digit.
pub open spec fn is_digit(c: char) -> bool {
    '0' <= c <= '9'
}

/// The value of a run of decimal digits.
pub open spec fn digits_value(s: Seq<char>) -> int
    decreases s.len(),
{
    if s.len() == 0 {
        0
    } else {
        digits_value(s.drop_last()) * 10 + (s.last() as int - '0' as int)
    }
}

/// Every character is a decimal digit.
pub open spec fn all_digits(s: Seq<char>) -> bool {
    forall|i: int| 0 <= i < s.len() ==> is_digit(#[trigger] s[i])
}

/// The text has a leading sign.
pub open spec fn signed(s: Seq<char>) -> bool {
    s.len() > 0 && (s[0] == '-' || s[0] == '+')
}

/// The text after its sign, if any.
pub open spec fn unsigned_part(s: Seq<char>) -> Seq<char> {
    if signed(s) { s.skip(1) } else { s }
}

/// The integer that a decimal text denotes, as `str::parse::<i32>` reads it:
/// an optional `+` or `-`, then one digit or more, within the range of `i32`.
pub open spec fn id_value(s: Seq<char>) -> Option<int> {
    let body = unsigned_part(s);
    let v = if s.len() > 0 && s[0] == '-' { -digits_value(body) } else { digits_value(body) };
    if body.len() == 0 || !all_digits(body) {
        None
    } else if v < i32::MIN || v > i32::MAX {
        None
    } else {
        Some(v)
    }
}

proof fn lemma_digits_grow(s: Seq<char>, k: int)
    requires
        0 <= k <= s.len(),
        forall|i: int| 0 <= i < s.len() ==> is_digit(#[trigger] s[i]),
    ensures
        0 <= digits_value(s.subrange(0, k)) <= digits_value(s),
    decreases s.len(),
{
    if k < s.len() {
        let d = s.drop_last();
        assert(forall|i: int| 0 <= i < d.len() ==> d[i] == s[i]);
        lemma_digits_grow(d, k);
        assert(d.subrange(0, k) =~= s.subrange(0, k));
        lemma_digits_grow(d, d.len() as int);
        assert(d.subrange(0, d.len() as int) =~= d);
        assert(is_digit(s[s.len() - 1]));
    } else {
        assert(s.subrange(0, k) =~= s);
        if s.len() > 0 {
            lemma_digits_grow(s.drop_last(), s.len() - 1);
            assert(s.drop_last().subrange(0, s.len() - 1) =~= s.drop_last());
            assert(is_digit(s[s.len() - 1]));
        }
    }
}

/// Reads a note id from a line of input (its trailing whitespace already
/// taken off); `None` when the line is not a decimal `i32`.
pub fn parse_id(text: &str) -> (r: Option<i32>)
    ensures
        r matches Some(v) ==> id_value(text@) == Some(v as int),
        r is None ==> id_value(text@) is None,
{
    let len = text.unicode_len();
    let ghost s = text@;
    let mut start: usize = 0;
    let mut neg = false;
    if len > 0 {
        let c = text.get_char(0);
        if c == '-' || c == '+' {
            start = 1;
            neg = c == '-';
        }
    }
    let ghost body = s.skip(start as int);
    assert(body =~= unsigned_part(s));
    if start >= len {
        return None;
    }
    let mut k: usize = start;
    while k < len
        invariant
            start <= k <= len,
            len == s.len(),
            s == text@,
            body == s.skip(start as int),
            body == unsigned_part(s),
            neg == (s.len() > 0 && s[0] == '-'),
            forall|i: int| 0 <= i < k - start ==> is_digit(#[trigger] body[i]),
        decreases len - k,
    {
        let c = text.get_char(k);
        if !('0' <= c && c <= '9') {
            assert(!is_digit(body[k - start]));
            assert(body[k - start] == s[k as int]);
            assert(!all_digits(body));
            return None;
        }
        k += 1;
    }
    let mut acc: i128 = 0;
    let mut k: usize = start;
    while k < len
        invariant
            start <= k <= len,
            len == s.len(),
            s == text@,
            body == s.skip(start as int),
            body == unsigned_part(s),
            neg == (s.len() > 0 && s[0] == '-'),
            forall|i: int| 0 <= i < body.len() ==> is_digit(#[trigger] body[i]),
            acc == digits_value(body.subrange(0, k - start)),
            0 <= acc <= 0x8000_0000,
        decreases len - k,
    {
        let c = text.get_char(k);
        let ghost pre = body.subrange(0, k - start + 1);
        assert(pre.drop_last() =~= body.subrange(0, k - start));
        assert(pre.last() == c);
        acc = acc * 10 + (c as u32 - '0' as u32) as i128;
        if acc > 0x8000_0000 {
            proof {
                lemma_digits_grow(body, k - start + 1);
                assert(digits_value(body) > i32::MAX);
            }
            return None;
        }
        k += 1;
    }
    assert(body.subrange(0, body.len() as int) =~= body);
    if neg {
        Some((-acc) as i32)
    } else if acc > 0x7fff_ffff {
        None
    } else {
        Some(acc as i32)
    }
}

/// What a line typed at the menu asks for.
#[derive(Clone, Copy, Debug, PartialEq, Eq, Structural)]
pub enum Command {
    Create,
    List,
    Toggle,
    Remove,
    Quit,
    Unknown,
}

/// The command that a menu line (trailing whitespace taken off) names.
pub open spec fn command_of(s: Seq<char>) -> Command {
    if s == seq!['c'] {
        Command::Create
    } else if s == seq!['l'] {
        Command::List
    } else if s == seq!['d'] {
        Command::Toggle
    } else if s == seq!['r'] {
        Command::Remove
    } else if s == seq!['q'] {
        Command::Quit
    } else {
        Command::Unknown
    }
}

impl Command {
    /// Reads a menu line: `c`, `l`, `d`, `r` or `q` exactly, after its
    /// trailing whitespace is taken off; anything else is `Unknown`.
    pub fn parse(line: &str) -> (r: Command)
        ensures
            r == command_of(trimmed_end(line@)),
    {
        let t = trim_line(line);
        let s = t.as_str();
        if s.unicode_len() != 1 {
            assert(s@ != seq!['c'] && s@ != seq!['l'] && s@ != seq!['d'] && s@ != seq!['r'] && s@ != seq!['q']);
            return Command::Unknown;
        }
        let c = s.get_char(0);
        assert(s@ =~= seq![c]);
        if c == 'c' {
            Command::Create
        } else if c == 'l' {
            Command::List
        } else if c == 'd' {
            Command::Toggle
        } else if c == 'r' {
            Command::Remove
        } else if c == 'q' {
            Command::Quit
        } else {
            Command::Unknown
        }
    }
}

} // verus!
