//! The labels of the assembly output: `str_0`, `str_1` and so on, one per
//! command, shared by the code that refers to a string and the data that
//! defines it.

use crate::text::{decimal, lemma_decimal_digits, lemma_decimal_injective, push_decimal};
use vstd::prelude::*;
use vstd::string::StringExecFns;

verus! {

/// The label of the string of command number `n`, counted from zero.
pub open spec fn label(n: nat) -> Seq<char> {
    "str_"@ + decimal(n)
}

/// What every label begins with.
pub open spec fn label_stem() -> Seq<char> {
    "str_"@
}

/// How the code refers to the label of command number `n`: as an immediate
/// operand, followed by the comma before the next operand.
pub open spec fn label_reference(n: nat) -> Seq<char> {
    "$"@ + label(n) + ","@
}

/// How the data defines the label of command number `n`.
pub open spec fn label_definition(n: nat) -> Seq<char> {
    label(n) + ":"@
}

/// Two commands never share a label: different numbers give different
/// labels.
pub proof fn lemma_labels_distinct(i: nat, j: nat)
    requires
        i != j,
    ensures
        label(i) != label(j),
        label_reference(i) != label_reference(j),
        label_definition(i) != label_definition(j),
{
    let prefix = "str_"@;
    let len = prefix.len() as int;
    assert(label(i).subrange(len, label(i).len() as int) == decimal(i));
    assert(label(j).subrange(len, label(j).len() as int) == decimal(j));
    if label(i) == label(j) {
        lemma_decimal_injective(i, j);
    }
    assert(label_definition(i).subrange(0, label(i).len() as int) == label(i));
    assert(label_definition(j).subrange(0, label(j).len() as int) == label(j));
    assert(label_reference(i).subrange(1, 1 + label(i).len() as int) == label(i)) by {
        reveal_strlit("$");
    }
    assert(label_reference(j).subrange(1, 1 + label(j).len() as int) == label(j)) by {
        reveal_strlit("$");
    }
    if label_definition(i) == label_definition(j) {
        assert(label(i).len() == label(j).len()) by {
            reveal_strlit(":");
        }
    }
    if label_reference(i) == label_reference(j) {
        assert(label(i).len() == label(j).len()) by {
            reveal_strlit("$");
            reveal_strlit(",");
        }
    }
}

/// A decimal rendering followed by a character that is no digit is read
/// back without doubt: if the digits of `i` and the character `stop` begin
/// a text that is the digits of `k`, the same `stop` and anything more, then
/// `i` is `k`.
pub proof fn lemma_decimal_prefix(i: nat, k: nat, stop: char, rest: Seq<char>)
    requires
        !('0' <= stop <= '9'),
        occurs_prefix(decimal(k).push(stop) + rest, decimal(i).push(stop)),
    ensures
        i == k,
{
    let text = decimal(k).push(stop) + rest;
    let a = decimal(i).len() as int;
    let b = decimal(k).len() as int;
    lemma_decimal_digits(i);
    lemma_decimal_digits(k);
    let head = text.subrange(0, a + 1);
    assert(head == decimal(i).push(stop));
    if a < b {
        assert(head[a] == text[a]);
        assert(text[a] == decimal(k)[a]);
        assert(decimal(i).push(stop)[a] == stop);
    } else if b < a {
        assert(head[b] == text[b]);
        assert(text[b] == stop);
        assert(decimal(i).push(stop)[b] == decimal(i)[b]);
    } else {
        assert forall|x: int| 0 <= x < a implies decimal(i)[x] == decimal(k)[x] by {
            assert(head[x] == text[x]);
            assert(decimal(i).push(stop)[x] == decimal(i)[x]);
        }
        assert(decimal(i) =~= decimal(k));
        lemma_decimal_injective(i, k);
    }
}

/// Two decimal renderings that end in different characters are never taken
/// for one another: the digits of `i` and the character `stop_i` do not
/// begin a text that is the digits of `k`, another character `stop_k` and
/// anything more.
pub proof fn lemma_decimal_prefix_mismatch(
    i: nat,
    k: nat,
    stop_i: char,
    stop_k: char,
    rest: Seq<char>,
)
    requires
        !('0' <= stop_i <= '9'),
        !('0' <= stop_k <= '9'),
        stop_i != stop_k,
    ensures
        !occurs_prefix(decimal(k).push(stop_k) + rest, decimal(i).push(stop_i)),
{
    let text = decimal(k).push(stop_k) + rest;
    let wanted = decimal(i).push(stop_i);
    let a = decimal(i).len() as int;
    let b = decimal(k).len() as int;
    lemma_decimal_digits(i);
    lemma_decimal_digits(k);
    if occurs_prefix(text, wanted) {
        let head = text.subrange(0, a + 1);
        if a < b {
            assert(head[a] == text[a]);
            assert(text[a] == decimal(k)[a]);
            assert(wanted[a] == stop_i);
        } else if b < a {
            assert(head[b] == text[b]);
            assert(text[b] == stop_k);
            assert(wanted[b] == decimal(i)[b]);
        } else {
            assert(head[a] == text[a]);
            assert(text[a] == stop_k);
            assert(wanted[a] == stop_i);
        }
    }
}

/// `pattern` is the beginning of `text`.
pub open spec fn occurs_prefix(text: Seq<char>, pattern: Seq<char>) -> bool {
    pattern.len() <= text.len() && text.subrange(0, pattern.len() as int) == pattern
}

/// Appends the label of command number `n` to `out`.
pub fn push_label(out: &mut String, n: usize)
    ensures
        final(out)@ == old(out)@ + label(n as nat),
{
    out.append("str_");
    push_decimal(out, n);
}

/// Appends a reference to the label of command number `n` to `out`.
pub fn push_label_reference(out: &mut String, n: usize)
    ensures
        final(out)@ == old(out)@ + label_reference(n as nat),
{
    out.append("$");
    push_label(out, n);
    out.append(",");
}

/// Appends the definition of the label of command number `n` to `out`.
pub fn push_label_definition(out: &mut String, n: usize)
    ensures
        final(out)@ == old(out)@ + label_definition(n as nat),
{
    push_label(out, n);
    out.append(":");
}

} // verus!
