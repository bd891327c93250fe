//! Text helpers shared by the walker and the emitters: quote stripping and
//! decimal rendering, each stated over `Seq<char>`.

use vstd::prelude::*;

verus! {

/// Trusted: `String::push` appends exactly one character to the end of the
/// string and leaves the earlier characters in place.
pub assume_specification[ String::push ](s: &mut String, c: char)
    ensures
        final(s)@ == old(s)@.push(c),
;

/// The double quote, the delimiter of a string literal in the source.
pub open spec fn is_quote(c: char) -> bool {
    c == '"'
}

/// No character of `s` is a double quote.
pub open spec fn quote_free(s: Seq<char>) -> bool {
    forall|i: int| 0 <= i < s.len() ==> !is_quote(#[trigger] s[i])
}

/// `s` with every double quote removed and all else kept in order.
pub open spec fn without_quotes(s: Seq<char>) -> Seq<char> {
    s.filter(|c: char| !is_quote(c))
}

/// Appending one character to `s` appends it to the stripped text too,
/// unless the character is a quote.
pub proof fn lemma_without_quotes_push(s: Seq<char>, c: char)
    ensures
        without_quotes(s.push(c)) == if is_quote(c) {
            without_quotes(s)
        } else {
            without_quotes(s).push(c)
        },
{
    reveal_with_fuel(Seq::filter, 2);
    assert(s.push(c).drop_last() == s);
}

/// Stripping leaves no quote behind.
pub proof fn lemma_without_quotes_is_quote_free(s: Seq<char>)
    ensures
        quote_free(without_quotes(s)),
    decreases s.len(),
{
    if s.len() == 0 {
        reveal_with_fuel(Seq::filter, 1);
    } else {
        assert(s == s.drop_last().push(s.last()));
        lemma_without_quotes_push(s.drop_last(), s.last());
        lemma_without_quotes_is_quote_free(s.drop_last());
    }
}

/// Removes every double quote from `s`. Nothing is unescaped.
pub fn strip_quotes(s: &str) -> (r: String)
    ensures
        r@ == without_quotes(s@),
{
    broadcast use vstd::string::axiom_spec_iter;

    let mut out = String::new();
    proof {
        reveal_with_fuel(Seq::filter, 1);
    }
    for c in it: s.chars()
        invariant
            it.seq() == s@,
            out@ == without_quotes(s@.take(it.index())),
    {
        proof {
            let n = it.index();
            assert(s@.take(n + 1) == s@.take(n).push(c));
            lemma_without_quotes_push(s@.take(n), c);
        }
        if c != '"' {
            out.push(c);
        }
    }
    assert(s@.take(s@.len() as int) == s@);
    out
}

/// The character that writes the digit `d`, for `d` below ten.
pub open spec fn digit_char(d: nat) -> char {
    ('0' as nat + d) as char
}

/// The decimal digits of `n`, most significant first, without padding.
pub open spec fn decimal(n: nat) -> Seq<char>
    decreases n,
{
    if n < 10 {
        seq![digit_char(n)]
    } else {
        decimal(n / 10).push(digit_char(n % 10))
    }
}

/// A decimal rendering is a non-empty run of digits.
pub proof fn lemma_decimal_digits(n: nat)
    ensures
        decimal(n).len() >= 1,
        forall|i: int|
            0 <= i < decimal(n).len() ==> '0' <= #[trigger] decimal(n)[i] <= '9',
    decreases n,
{
    if n >= 10 {
        lemma_decimal_digits(n / 10);
    }
}

/// Different numbers have different decimal renderings.
pub proof fn lemma_decimal_injective(a: nat, b: nat)
    requires
        decimal(a) == decimal(b),
    ensures
        a == b,
    decreases a,
{
    lemma_decimal_digits(a / 10);
    lemma_decimal_digits(b / 10);
    let da = decimal(a / 10);
    let db = decimal(b / 10);
    if a < 10 && b < 10 {
        assert(decimal(a)[0] == digit_char(a));
        assert(decimal(b)[0] == digit_char(b));
    } else if a >= 10 && b >= 10 {
        assert(decimal(a).drop_last() == da);
        assert(decimal(b).drop_last() == db);
        assert(decimal(a).last() == digit_char(a % 10));
        assert(decimal(b).last() == digit_char(b % 10));
        lemma_decimal_injective(a / 10, b / 10);
    } else if a < 10 {
        assert(decimal(a).len() == 1);
        assert(decimal(b).len() == db.len() + 1);
    } else {
        assert(decimal(b).len() == 1);
        assert(decimal(a).len() == da.len() + 1);
    }
}

/// The character that writes the digit `d`.
fn digit(d: u8) -> (c: char)
    requires
        d < 10,
    ensures
        c == digit_char(d as nat),
{
    (48u8 + d) as char
}

/// Appends the decimal digits of `n` to `out`.
pub fn push_decimal(out: &mut String, n: usize)
    ensures
        final(out)@ == old(out)@ + decimal(n as nat),
    decreases n,
{
    if n >= 10 {
        push_decimal(out, n / 10);
    }
    out.push(digit((n % 10) as u8));
}

} // verus!
