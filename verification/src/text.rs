//! Text that the server writes: decimal numbers, joined lists, trimmed input.
use vstd::prelude::*;

verus! {

/// The character of a decimal digit.
pub open spec fn digit_char(d: nat) -> char {
    (48 + d) as char
}

/// The decimal digits of a natural number, without leading zeros.
pub open spec fn decimal(n: nat) -> Seq<char>
    decreases n,
{
    if n < 10 {
        seq![digit_char(n)]
    } else {
        decimal(n / 10).push(digit_char(n % 10))
    }
}

/// `n` zeros.
pub open spec fn zeros(n: nat) -> Seq<char> {
    Seq::new(n, |i: int| '0')
}

/// A score, filled up with zeros to seven characters; a minus sign counts as
/// one of the seven and stands in front of the zeros.
pub open spec fn score_text(score: int) -> Seq<char> {
    if score >= 0 {
        let digits = decimal(score as nat);
        zeros(if digits.len() < 7 { (7 - digits.len()) as nat } else { 0 }) + digits
    } else {
        let digits = decimal((-score) as nat);
        seq!['-'] + zeros(if digits.len() < 6 { (6 - digits.len()) as nat } else { 0 }) + digits
    }
}

/// Every part, with `mark` in front of it.
pub open spec fn marked(parts: Seq<Seq<char>>, mark: Seq<char>) -> Seq<char>
    decreases parts.len(),
{
    if parts.len() == 0 {
        Seq::empty()
    } else {
        marked(parts.drop_last(), mark) + mark + parts.last()
    }
}

/// The parts in a row, with `mark` between each two of them.
pub open spec fn joined(parts: Seq<Seq<char>>, mark: Seq<char>) -> Seq<char> {
    if parts.len() == 0 {
        Seq::empty()
    } else {
        parts[0] + marked(parts.drop_first(), mark)
    }
}

/// The characters with the Unicode property `White_Space`.
pub open spec fn is_blank(c: char) -> bool {
    let n = c as u32;
    ||| 0x9 <= n <= 0xd
    ||| n == 0x20
    ||| n == 0x85
    ||| n == 0xa0
    ||| n == 0x1680
    ||| 0x2000 <= n <= 0x200a
    ||| n == 0x2028
    ||| n == 0x2029
    ||| n == 0x202f
    ||| n == 0x205f
    ||| n == 0x3000
}

/// `s` without the blanks at its start.
pub open spec fn trim_start(s: Seq<char>) -> Seq<char>
    decreases s.len(),
{
    if s.len() > 0 && is_blank(s[0]) {
        trim_start(s.drop_first())
    } else {
        s
    }
}

/// `s` without the blanks at its end.
pub open spec fn trim_end(s: Seq<char>) -> Seq<char>
    decreases s.len(),
{
    if s.len() > 0 && is_blank(s.last()) {
        trim_end(s.drop_last())
    } else {
        s
    }
}

/// `s` without the blanks at its start and at its end.
pub open spec fn trimmed(s: Seq<char>) -> Seq<char> {
    trim_end(trim_start(s))
}

/// The views of a list of strings.
pub open spec fn texts(parts: Seq<String>) -> Seq<Seq<char>> {
    parts.map_values(|s: String| s@)
}

fn digit_text(d: u64) -> (r: &'static str)
    requires
        d < 10,
    ensures
        r@ == seq![digit_char(d as nat)],
{
    proof {
        reveal_strlit("0");
        reveal_strlit("1");
        reveal_strlit("2");
        reveal_strlit("3");
        reveal_strlit("4");
        reveal_strlit("5");
        reveal_strlit("6");
        reveal_strlit("7");
        reveal_strlit("8");
        reveal_strlit("9");
    }
    let r: &'static str = match d {
        0 => "0",
        1 => "1",
        2 => "2",
        3 => "3",
        4 => "4",
        5 => "5",
        6 => "6",
        7 => "7",
        8 => "8",
        _ => "9",
    };
    assert(r@ =~= seq![digit_char(d as nat)]);
    r
}

/// Writes a number in decimal.
pub fn decimal_text(n: u64) -> (r: String)
    ensures
        r@ == decimal(n as nat),
    decreases n,
{
    if n < 10 {
        digit_text(n).to_string()
    } else {
        let mut r: String = decimal_text(n / 10);
        let ghost high = r@;
        r.append(digit_text(n % 10));
        assert(r@ =~= high.push(digit_char((n % 10) as nat)));
        r
    }
}

fn zero_text(n: usize) -> (r: String)
    ensures
        r@ == zeros(n as nat),
{
    let mut r: String = String::new();
    let mut i: usize = 0;
    proof {
        reveal_strlit("0");
    }
    assert(r@ =~= zeros(0));
    while i < n
        invariant
            i <= n,
            r@ == zeros(i as nat),
            "0"@ == seq!['0'],
        decreases n - i,
    {
        r.append("0");
        i = i + 1;
        assert(r@ =~= zeros(i as nat));
    }
    r
}

/// Writes a score in at least seven characters.
pub fn score_string(score: i32) -> (r: String)
    ensures
        r@ == score_text(score as int),
{
    proof {
        reveal_strlit("-");
        assert("-"@ =~= seq!['-']);
    }
    if score >= 0 {
        let digits: String = decimal_text(score as u64);
        let n: usize = digits.as_str().unicode_len();
        let fill: usize = if n < 7 { 7 - n } else { 0 };
        zero_text(fill).concat(digits.as_str())
    } else {
        let magnitude: i64 = -(score as i64);
        let digits: String = decimal_text(magnitude as u64);
        let n: usize = digits.as_str().unicode_len();
        let fill: usize = if n < 6 { 6 - n } else { 0 };
        "-".to_string().concat(zero_text(fill).as_str()).concat(digits.as_str())
    }
}

/// Joins the parts with `mark`.
pub fn join_texts(parts: &Vec<String>, mark: &str) -> (r: String)
    ensures
        r@ == joined(texts(parts@), mark@),
{
    if parts.len() == 0 {
        String::new()
    } else {
        let ghost all = texts(parts@);
        let mut r: String = parts[0].clone();
        let mut i: usize = 1;
        assert(all.drop_first().take(0) =~= Seq::<Seq<char>>::empty());
        assert(r@ =~= all[0] + marked(all.drop_first().take(0), mark@));
        while i < parts.len()
            invariant
                1 <= i <= parts.len(),
                all == texts(parts@),
                r@ == all[0] + marked(all.drop_first().take(i - 1), mark@),
            decreases parts.len() - i,
        {
            let ghost rest = all.drop_first();
            assert(rest.take(i as int).drop_last() =~= rest.take(i - 1));
            assert(rest.take(i as int).last() == all[i as int]);
            r.append(mark);
            r.append(parts[i].as_str());
            assert(r@ =~= all[0] + marked(rest.take(i as int), mark@));
            i = i + 1;
        }
        assert(all.drop_first().take(i - 1) =~= all.drop_first());
        r
    }
}

fn blank(c: char) -> (r: bool)
    ensures
        r == is_blank(c),
{
    let n: u32 = c as u32;
    (0x9 <= n && n <= 0xd) || n == 0x20 || n == 0x85 || n == 0xa0 || n == 0x1680 || (0x2000 <= n && n
        <= 0x200a) || n == 0x2028 || n == 0x2029 || n == 0x202f || n == 0x205f || n == 0x3000
}

/// Takes the blanks off both ends.
pub fn trim_text(s: &str) -> (r: String)
    ensures
        r@ == trimmed(s@),
{
    let len: usize = s.unicode_len();
    let mut lo: usize = 0;
    assert(s@.skip(0) =~= s@);
    while lo < len && blank(s.get_char(lo))
        invariant
            lo <= len == s@.len(),
            trim_start(s@) == trim_start(s@.skip(lo as int)),
        decreases len - lo,
    {
        assert(s@.skip(lo as int).drop_first() =~= s@.skip(lo + 1));
        lo = lo + 1;
    }
    let ghost rest = s@.skip(lo as int);
    assert(trim_start(s@) == rest);
    let mut hi: usize = len;
    assert(s@.subrange(lo as int, hi as int) =~= rest);
    while hi > lo && blank(s.get_char(hi - 1))
        invariant
            lo <= hi <= len == s@.len(),
            trim_end(rest) == trim_end(s@.subrange(lo as int, hi as int)),
        decreases hi,
    {
        assert(s@.subrange(lo as int, hi as int).drop_last() =~= s@.subrange(
            lo as int,
            hi - 1,
        ));
        hi = hi - 1;
    }
    s.substring_char(lo, hi).to_string()
}

/// Compares a string with a literal.
pub fn same_text(a: &str, b: &str) -> (r: bool)
    ensures
        r == (a@ == b@),
{
    a.to_string() == b.to_string()
}

} // verus!
