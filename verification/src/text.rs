use vstd::prelude::*;

verus! {

/// `String::push_str`.
///
/// Trusted: the text is appended, as std documents.
#[verifier::external_body]
pub(crate) fn append_text(s: &mut String, t: &str)
    ensures
        final(s)@ == old(s)@ + t@,
{
    s.push_str(t);
}

/// `String::push`.
///
/// Trusted: the character is appended, as std documents.
#[verifier::external_body]
pub(crate) fn append_char(s: &mut String, c: char)
    ensures
        final(s)@ == old(s)@.push(c),
{
    s.push(c);
}

/// The decimal digit of a value below ten.
pub open spec fn digit_char(d: int) -> char {
    (48 + d) as char
}

/// The decimal form of a number, with no leading zeros (`0` for zero).
pub open spec fn decimal(n: nat) -> Seq<char>
    decreases n,
{
    if n < 10 {
        seq![digit_char(n as int)]
    } else {
        decimal(n / 10).push(digit_char((n % 10) as int))
    }
}

/// Appends the decimal form of a number.
pub fn append_decimal(s: &mut String, n: u64)
    ensures
        final(s)@ == old(s)@ + decimal(n as nat),
{
    // the digits, least significant first
    let mut digits: Vec<char> = Vec::new();
    let mut m: u64 = n;
    assert(digits@.reverse() =~= Seq::<char>::empty());
    assert(decimal(n as nat) =~= decimal(n as nat) + Seq::<char>::empty());
    loop
        invariant_except_break
            m <= n,
            decimal(n as nat) == decimal(m as nat) + digits@.reverse(),
        ensures
            decimal(n as nat) == digits@.reverse(),
        decreases m,
    {
        let d = m % 10;
        let c: char = if d == 0 {
            '0'
        } else if d == 1 {
            '1'
        } else if d == 2 {
            '2'
        } else if d == 3 {
            '3'
        } else if d == 4 {
            '4'
        } else if d == 5 {
            '5'
        } else if d == 6 {
            '6'
        } else if d == 7 {
            '7'
        } else if d == 8 {
            '8'
        } else {
            '9'
        };
        assert(c == digit_char(d as int));
        let ghost before = digits@;
        digits.push(c);
        if m < 10 {
            assert(decimal(m as nat) == seq![c]);
            assert(digits@.reverse() =~= seq![c] + before.reverse());
            assert(decimal(n as nat) =~= digits@.reverse());
            break;
        }
        assert(decimal(m as nat) == decimal((m / 10) as nat).push(c));
        assert(digits@.reverse() =~= seq![c] + before.reverse());
        assert(decimal((m / 10) as nat).push(c) + before.reverse() =~= decimal((m / 10) as nat)
            + digits@.reverse());
        m = m / 10;
    }
    // here decimal(n) == digits reversed
    let ghost start = s@;
    let mut k: usize = digits.len();
    while k > 0
        invariant
            k <= digits.len(),
            s@ == start + digits@.reverse().take((digits.len() - k) as int),
        decreases k,
    {
        k = k - 1;
        append_char(s, digits[k]);
        assert(digits@.reverse().take((digits.len() - k) as int) =~= digits@.reverse().take(
            (digits.len() - k - 1) as int,
        ).push(digits@[k as int]));
    }
    assert(digits@.reverse().take(digits.len() as int) =~= digits@.reverse());
}

/// The pieces of a text cut at each separator, as `str::split` gives them, for the first `n`
/// characters: `"a,b"` gives `["a", "b"]`, `""` gives `[""]`.
pub open spec fn split_upto(p: Seq<char>, sep: char, n: nat) -> Seq<Seq<char>>
    decreases n,
{
    if n == 0 {
        seq![Seq::<char>::empty()]
    } else {
        let prev = split_upto(p, sep, (n - 1) as nat);
        if p[n - 1] == sep {
            prev.push(Seq::<char>::empty())
        } else {
            prev.update(prev.len() - 1, prev.last().push(p[n - 1]))
        }
    }
}

/// The pieces of a text cut at each separator, as `str::split` gives them.
pub open spec fn split_on(p: Seq<char>, sep: char) -> Seq<Seq<char>> {
    split_upto(p, sep, p.len())
}

/// Cutting a text gives at least one piece.
pub proof fn lemma_split_upto_nonempty(p: Seq<char>, sep: char, n: nat)
    ensures
        split_upto(p, sep, n).len() >= 1,
    decreases n,
{
    if n > 0 {
        lemma_split_upto_nonempty(p, sep, (n - 1) as nat);
    }
}

/// Cuts a text at each separator.
pub fn split_text(p: &str, sep: char) -> (r: Vec<String>)
    ensures
        r@.map_values(|s: String| s@) == split_on(p@, sep),
{
    let n = p.unicode_len();
    let mut out: Vec<String> = Vec::new();
    let mut start: usize = 0;
    let mut i: usize = 0;
    assert(p@.subrange(0, 0) =~= Seq::<char>::empty());
    assert(out@.map_values(|s: String| s@) =~= Seq::<Seq<char>>::empty());
    assert(out@.map_values(|s: String| s@).push(p@.subrange(0, 0)) =~= seq![Seq::<char>::empty()]);
    while i < n
        invariant
            n == p@.len(),
            start <= i <= n,
            out@.map_values(|s: String| s@).push(p@.subrange(start as int, i as int))
                == split_upto(p@, sep, i as nat),
        decreases n - i,
    {
        let c = p.get_char(i);
        let ghost prev = split_upto(p@, sep, i as nat);
        proof {
            lemma_split_upto_nonempty(p@, sep, i as nat);
        }
        if c == sep {
            let seg = p.substring_char(start, i);
            let s = String::from_str(seg);
            out.push(s);
            start = i + 1;
            assert(out@.map_values(|s: String| s@) =~= prev);
            assert(p@.subrange(start as int, (i + 1) as int) =~= Seq::<char>::empty());
        } else {
            assert(p@.subrange(start as int, (i + 1) as int) =~= p@.subrange(
                start as int,
                i as int,
            ).push(c));
            assert(out@.map_values(|s: String| s@).push(p@.subrange(start as int, (i + 1) as int))
                =~= prev.update(prev.len() - 1, prev.last().push(c)));
        }
        i = i + 1;
    }
    let last = String::from_str(p.substring_char(start, n));
    out.push(last);
    assert(out@.map_values(|s: String| s@) =~= split_upto(p@, sep, n as nat));
    out
}

} // verus!
