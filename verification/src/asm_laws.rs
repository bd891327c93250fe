//! Laws of the assembly output: where the labels stand. For a body of `N`
//! commands the labels are `str_0` to `str_(N-1)`. The code region refers to
//! each exactly once and the data region defines each exactly once, both in
//! body order; the same is stated of the whole text, in which every
//! reference lies before the data header and every definition after it, and
//! which holds `2 * N` labels in all.
//!
//! A text is embedded in the output as it is, so a text that itself spells
//! a reference, a definition or the stem `str_` shows up in the counts. The
//! laws on what the data region and the whole text hold are therefore
//! stated for bodies without such a text, and for no others.

use crate::emit_asm::{
    asm_call, asm_calls, asm_code_region, asm_data, asm_data_region, asm_datum, asm_text,
};
use crate::labels::{
    label_definition, label_reference, label_stem, lemma_decimal_prefix,
    lemma_decimal_prefix_mismatch, occurs_prefix,
};
use crate::model::CommandView;
use crate::occurrence::{
    lemma_count_joined, lemma_count_none, lemma_count_one, lemma_occurrence_before_last,
    lemma_occurrence_chars, lemma_occurrence_in_joined, lemma_occurrence_of_beginning,
    occurrence_count, occurrences, occurs_at, occurs_in,
};
use crate::text::{decimal, lemma_decimal_digits};
use vstd::prelude::*;

verus! {

/// Where the code of command number `n` begins in the code region.
pub open spec fn code_entry_start(body: Seq<CommandView>, n: nat) -> int {
    asm_code_region(body.take(n as int)).len() as int
}

/// Where the data of command number `n` begins in the data region.
pub open spec fn data_entry_start(body: Seq<CommandView>, n: nat) -> int {
    asm_data_region(body.take(n as int)).len() as int
}

/// A reference is a dollar sign, the label and a comma; it holds neither a
/// line break nor a double quote.
proof fn lemma_reference_chars(n: nat)
    ensures
        label_reference(n).len() == 6 + decimal(n).len(),
        label_reference(n)[0] == '$',
        label_reference(n).subrange(5, label_reference(n).len() as int) == decimal(n).push(','),
        !label_reference(n).contains('\n'),
        !label_reference(n).contains('"'),
{
    reveal_strlit("$");
    reveal_strlit("str_");
    reveal_strlit(",");
    lemma_decimal_digits(n);
    let r = label_reference(n);
    let d = decimal(n);
    assert(r.subrange(5, r.len() as int) =~= d.push(','));
    assert forall|x: int| 0 <= x < r.len() implies r[x] != '\n' && r[x] != '"' by {
        if 5 <= x < 5 + d.len() {
            assert(r[x] == d[x - 5]);
        }
    }
}

/// A definition is the label and a colon; it holds no line break, no double
/// quote and no dollar sign, and begins with the stem of all labels.
proof fn lemma_definition_chars(n: nat)
    ensures
        label_definition(n).len() == 5 + decimal(n).len(),
        label_definition(n)[0] == 's',
        label_definition(n)[1] == 't',
        label_definition(n).subrange(4, label_definition(n).len() as int) == decimal(n).push(
            ':',
        ),
        label_definition(n).subrange(0, 4) == label_stem(),
        !label_definition(n).contains('\n'),
        !label_definition(n).contains('"'),
        !label_definition(n).contains('$'),
{
    reveal_strlit("str_");
    reveal_strlit(":");
    lemma_decimal_digits(n);
    let r = label_definition(n);
    let d = decimal(n);
    assert(r.subrange(4, r.len() as int) =~= d.push(':'));
    assert(r.subrange(0, 4) =~= label_stem());
    assert forall|x: int| 0 <= x < r.len() implies r[x] != '\n' && r[x] != '"' && r[x]
        != '$' by {
        if 4 <= x < 4 + d.len() {
            assert(r[x] == d[x - 4]);
        }
    }
}

/// The stem of all labels is `str_`: four characters, none of them a line
/// break or a double quote.
proof fn lemma_stem_chars()
    ensures
        label_stem().len() == 4,
        label_stem()[0] == 's',
        label_stem()[1] == 't',
        !label_stem().contains('\n'),
        !label_stem().contains('"'),
{
    reveal_strlit("str_");
}

/// The code of one command refers to that command's label, once, and to no
/// other label.
proof fn lemma_reference_in_call(m: nat, cmd: CommandView, n: nat, at: int)
    ensures
        occurs_at(asm_call(m, cmd), label_reference(n), at) <==> (at == 4 && n == m),
{
    reveal_strlit("mov ");
    reveal_strlit(" %edi\n");
    reveal_strlit("call puts\n");
    lemma_reference_chars(m);
    lemma_reference_chars(n);
    lemma_decimal_digits(m);
    let entry = asm_call(m, cmd);
    let own = label_reference(m);
    let pattern = label_reference(n);
    let rest = " %edi\n"@ + "call puts\n"@;
    assert(entry =~= "mov "@ + own + rest);
    assert(entry.subrange(4, 4 + own.len() as int) =~= own);
    assert(entry.subrange(9, entry.len() as int) =~= decimal(m).push(',') + rest);
    if occurs_at(entry, pattern, at) {
        lemma_occurrence_chars(entry, pattern, at, 0);
        assert(at == 4) by {
            if 4 < at < 4 + own.len() {
                assert(entry[at] == own[at - 4]);
                reveal_strlit("$");
                reveal_strlit("str_");
                reveal_strlit(",");
                if 9 <= at < 9 + decimal(m).len() {
                    assert(own[at - 4] == decimal(m)[at - 9]);
                }
            }
        }
        let tail = decimal(m).push(',') + rest;
        let wanted = decimal(n).push(',');
        assert(tail.subrange(0, wanted.len() as int) =~= wanted) by {
            assert forall|x: int| 0 <= x < wanted.len() implies tail[x] == wanted[x] by {
                lemma_occurrence_chars(entry, pattern, 4, 5 + x);
                assert(entry.subrange(9, entry.len() as int)[x] == entry[9 + x]);
                assert(pattern.subrange(5, pattern.len() as int)[x] == pattern[5 + x]);
            }
        }
        assert(occurs_prefix(tail, wanted));
        lemma_decimal_prefix(n, m, ',', rest);
    }
}

/// The data of one command defines that command's label, once at its very
/// beginning, and no other label, unless its text spells a definition.
proof fn lemma_definition_in_datum(m: nat, cmd: CommandView, n: nat, at: int)
    requires
        !occurs_in(cmd.text(), label_definition(n)),
    ensures
        occurs_at(asm_datum(m, cmd), label_definition(n), at) <==> (at == 0 && n == m),
{
    reveal_strlit("\n");
    reveal_strlit(" .asciz \"");
    reveal_strlit("\"\n");
    lemma_definition_chars(m);
    lemma_definition_chars(n);
    lemma_decimal_digits(m);
    let entry = asm_datum(m, cmd);
    let own = label_definition(m);
    let pattern = label_definition(n);
    let opening = "\n"@ + " .asciz \""@;
    let head = own + opening;
    let text = cmd.text();
    assert(entry =~= head + text.push('"').push('\n'));
    assert(head.last() == '"');
    lemma_occurrence_in_joined(head, text.push('"').push('\n'), pattern, at);
    lemma_occurrence_before_last(text.push('"'), '\n', pattern, at - head.len());
    lemma_occurrence_before_last(text, '"', pattern, at - head.len());
    assert(!occurs_at(text, pattern, at - head.len()));
    assert(head.subrange(0, own.len() as int) =~= own);
    assert(head.subrange(4, head.len() as int) =~= decimal(m).push(':') + opening);
    if occurs_at(head, pattern, at) {
        lemma_occurrence_chars(head, pattern, at, 0);
        lemma_occurrence_chars(head, pattern, at, 1);
        assert(at == 0) by {
            if 0 < at < own.len() {
                assert(head[at] == own[at]);
                reveal_strlit("str_");
                reveal_strlit(":");
                if 4 <= at < 4 + decimal(m).len() {
                    assert(own[at] == decimal(m)[at - 4]);
                }
            }
        }
        let tail = decimal(m).push(':') + opening;
        let wanted = decimal(n).push(':');
        assert(tail.subrange(0, wanted.len() as int) =~= wanted) by {
            assert forall|x: int| 0 <= x < wanted.len() implies tail[x] == wanted[x] by {
                lemma_occurrence_chars(head, pattern, 0, 4 + x);
                assert(head.subrange(4, head.len() as int)[x] == head[4 + x]);
                assert(pattern.subrange(4, pattern.len() as int)[x] == pattern[4 + x]);
            }
        }
        assert(occurs_prefix(tail, wanted));
        lemma_decimal_prefix(n, m, ':', opening);
    }
}

/// One more command adds its code at the end of the code region.
proof fn lemma_code_region_step(body: Seq<CommandView>, m: int)
    requires
        0 <= m < body.len(),
    ensures
        asm_code_region(body.take(m + 1)) == asm_code_region(body.take(m)) + asm_call(
            m as nat,
            body[m],
        ),
{
    let entry = asm_call(m as nat, body[m]);
    let before = asm_calls(body.take(m));
    assert(asm_calls(body.take(m + 1)) =~= before.push(entry));
    before.lemma_flatten_push(entry);
    assert(asm_code_region(body.take(m + 1)) =~= asm_code_region(body.take(m)) + entry);
}

/// One more command adds its data at the end of the data region.
proof fn lemma_data_region_step(body: Seq<CommandView>, m: int)
    requires
        0 <= m < body.len(),
    ensures
        asm_data_region(body.take(m + 1)) == asm_data_region(body.take(m)) + asm_datum(
            m as nat,
            body[m],
        ),
{
    let entry = asm_datum(m as nat, body[m]);
    let before = asm_data(body.take(m));
    assert(asm_data(body.take(m + 1)) =~= before.push(entry));
    before.lemma_flatten_push(entry);
    assert(asm_data_region(body.take(m + 1)) =~= asm_data_region(body.take(m)) + entry);
}

/// The code region ends in a line break.
proof fn lemma_code_region_end(body: Seq<CommandView>)
    ensures
        asm_code_region(body).len() > 0,
        asm_code_region(body).last() == '\n',
{
    if body.len() == 0 {
        reveal_strlit("main:\n");
        assert(asm_calls(body).flatten() =~= Seq::<char>::empty());
    } else {
        let m = body.len() - 1;
        lemma_code_region_step(body, m);
        assert(body.take(m + 1) == body);
        reveal_strlit("call puts\n");
    }
}

/// The data region ends in a line break.
proof fn lemma_data_region_end(body: Seq<CommandView>)
    ensures
        asm_data_region(body).len() > 0,
        asm_data_region(body).last() == '\n',
{
    if body.len() == 0 {
        reveal_strlit(".data\n");
        assert(asm_data(body).flatten() =~= Seq::<char>::empty());
    } else {
        let m = body.len() - 1;
        lemma_data_region_step(body, m);
        assert(body.take(m + 1) == body);
        reveal_strlit("\"\n");
    }
}

/// Where references stand in the code of the first `m` commands.
proof fn lemma_references_upto(body: Seq<CommandView>, m: int, n: nat, at: int)
    requires
        0 <= m <= body.len(),
    ensures
        occurs_at(asm_code_region(body.take(m)), label_reference(n), at) <==> (n < m && at
            == code_entry_start(body, n) + 4),
    decreases m,
{
    let pattern = label_reference(n);
    lemma_reference_chars(n);
    if m == 0 {
        let region = asm_code_region(body.take(0));
        reveal_strlit(".text\n");
        reveal_strlit(".global main\n");
        reveal_strlit("main:\n");
        assert(asm_calls(body.take(0)).flatten() =~= Seq::<char>::empty());
        if occurs_at(region, pattern, at) {
            lemma_occurrence_chars(region, pattern, at, 0);
        }
    } else {
        let before = asm_code_region(body.take(m - 1));
        let entry = asm_call((m - 1) as nat, body[m - 1]);
        lemma_code_region_step(body, m - 1);
        lemma_code_region_end(body.take(m - 1));
        lemma_occurrence_in_joined(before, entry, pattern, at);
        lemma_references_upto(body, m - 1, n, at);
        lemma_reference_in_call((m - 1) as nat, body[m - 1], n, at - before.len());
    }
}

/// Where definitions stand in the data of the first `m` commands.
proof fn lemma_definitions_upto(body: Seq<CommandView>, m: int, n: nat, at: int)
    requires
        0 <= m <= body.len(),
        forall|k: int| 0 <= k < body.len() ==> !occurs_in((#[trigger] body[k]).text(), label_definition(n)),
    ensures
        occurs_at(asm_data_region(body.take(m)), label_definition(n), at) <==> (n < m && at
            == data_entry_start(body, n)),
    decreases m,
{
    let pattern = label_definition(n);
    lemma_definition_chars(n);
    if m == 0 {
        let region = asm_data_region(body.take(0));
        reveal_strlit(".data\n");
        assert(asm_data(body.take(0)).flatten() =~= Seq::<char>::empty());
        if occurs_at(region, pattern, at) {
            lemma_occurrence_chars(region, pattern, at, 0);
        }
    } else {
        let before = asm_data_region(body.take(m - 1));
        let entry = asm_datum((m - 1) as nat, body[m - 1]);
        lemma_data_region_step(body, m - 1);
        lemma_data_region_end(body.take(m - 1));
        lemma_occurrence_in_joined(before, entry, pattern, at);
        lemma_definitions_upto(body, m - 1, n, at);
        lemma_definition_in_datum((m - 1) as nat, body[m - 1], n, at - before.len());
    }
}

/// References in the code region. The label of each command of the body is
/// referred to exactly once, in the code of that command, which comes in
/// body order; no other label is referred to.
pub proof fn lemma_code_references(body: Seq<CommandView>, n: nat)
    ensures
        n < body.len() ==> occurrences(asm_code_region(body), label_reference(n)) == set![
            code_entry_start(body, n) + 4,
        ],
        n >= body.len() ==> occurrences(asm_code_region(body), label_reference(n))
            == Set::<int>::empty(),
        forall|i: nat, j: nat|
            i < j <= body.len() ==> #[trigger] code_entry_start(body, i) < #[trigger] code_entry_start(body, j),
{
    let found = occurrences(asm_code_region(body), label_reference(n));
    assert(body.take(body.len() as int) == body);
    assert forall|at: int| found.contains(at) <==> (n < body.len() && at == code_entry_start(
        body,
        n,
    ) + 4) by {
        lemma_references_upto(body, body.len() as int, n, at);
    }
    if n < body.len() {
        assert(found =~= set![code_entry_start(body, n) + 4]);
    } else {
        assert(found =~= Set::<int>::empty());
    }
    assert forall|i: nat, j: nat| i < j <= body.len() implies #[trigger] code_entry_start(body, i)
        < #[trigger] code_entry_start(body, j) by {
        lemma_code_entries_in_order(body, i, j);
    }
}

/// Definitions in the data region. The label of each command of the body is
/// defined exactly once, at the start of the data of that command, which
/// comes in body order; no other label is defined. This is stated for bodies
/// in which no text itself spells the definition in question.
pub proof fn lemma_data_definitions(body: Seq<CommandView>, n: nat)
    requires
        forall|k: int| 0 <= k < body.len() ==> !occurs_in((#[trigger] body[k]).text(), label_definition(n)),
    ensures
        n < body.len() ==> occurrences(asm_data_region(body), label_definition(n)) == set![
            data_entry_start(body, n),
        ],
        n >= body.len() ==> occurrences(asm_data_region(body), label_definition(n))
            == Set::<int>::empty(),
        forall|i: nat, j: nat|
            i < j <= body.len() ==> #[trigger] data_entry_start(body, i) < #[trigger] data_entry_start(body, j),
{
    let found = occurrences(asm_data_region(body), label_definition(n));
    assert(body.take(body.len() as int) == body);
    assert forall|at: int| found.contains(at) <==> (n < body.len() && at == data_entry_start(
        body,
        n,
    )) by {
        lemma_definitions_upto(body, body.len() as int, n, at);
    }
    if n < body.len() {
        assert(found =~= set![data_entry_start(body, n)]);
    } else {
        assert(found =~= Set::<int>::empty());
    }
    assert forall|i: nat, j: nat| i < j <= body.len() implies #[trigger] data_entry_start(body, i)
        < #[trigger] data_entry_start(body, j) by {
        lemma_data_entries_in_order(body, i, j);
    }
}

/// The code of an earlier command begins before the code of a later one.
proof fn lemma_code_entries_in_order(body: Seq<CommandView>, i: nat, j: nat)
    requires
        i < j <= body.len(),
    ensures
        code_entry_start(body, i) < code_entry_start(body, j),
    decreases j,
{
    lemma_code_region_step(body, j - 1);
    lemma_reference_in_call((j - 1) as nat, body[j - 1], (j - 1) as nat, 4);
    if i < j - 1 {
        lemma_code_entries_in_order(body, i, (j - 1) as nat);
    }
}

/// The data of an earlier command begins before the data of a later one.
proof fn lemma_data_entries_in_order(body: Seq<CommandView>, i: nat, j: nat)
    requires
        i < j <= body.len(),
    ensures
        data_entry_start(body, i) < data_entry_start(body, j),
    decreases j,
{
    lemma_data_region_step(body, j - 1);
    lemma_definition_chars((j - 1) as nat);
    if i < j - 1 {
        lemma_data_entries_in_order(body, i, (j - 1) as nat);
    }
}

/// The code of one command holds the stem of all labels once, in its
/// reference.
proof fn lemma_stem_in_call(m: nat, cmd: CommandView, at: int)
    ensures
        occurs_at(asm_call(m, cmd), label_stem(), at) <==> at == 5,
{
    reveal_strlit("mov ");
    reveal_strlit(" %edi\n");
    reveal_strlit("call puts\n");
    reveal_strlit("$");
    reveal_strlit("str_");
    reveal_strlit(",");
    lemma_decimal_digits(m);
    let entry = asm_call(m, cmd);
    let own = label_reference(m);
    let rest = " %edi\n"@ + "call puts\n"@;
    let stem = label_stem();
    assert(entry =~= "mov "@ + own + rest);
    assert(own =~= "$"@ + "str_"@ + decimal(m) + ","@);
    assert(entry.subrange(5, 9) =~= stem);
    if occurs_at(entry, stem, at) {
        lemma_occurrence_chars(entry, stem, at, 0);
        lemma_occurrence_chars(entry, stem, at, 1);
        assert(at == 5) by {
            if 4 <= at < 4 + own.len() {
                assert(entry[at] == own[at - 4]);
                if 9 <= at < 9 + decimal(m).len() {
                    assert(own[at - 4] == decimal(m)[at - 9]);
                }
            } else if at >= 4 + own.len() {
                assert(entry[at] == rest[at - 4 - own.len()]);
                assert(entry[at + 1] == rest[at + 1 - 4 - own.len()]);
            }
        }
    }
}

/// The data of one command holds the stem of all labels once, in its
/// definition, unless its text spells the stem.
proof fn lemma_stem_in_datum(m: nat, cmd: CommandView, at: int)
    requires
        !occurs_in(cmd.text(), label_stem()),
    ensures
        occurs_at(asm_datum(m, cmd), label_stem(), at) <==> at == 0,
{
    reveal_strlit("\n");
    reveal_strlit(" .asciz \"");
    reveal_strlit("\"\n");
    reveal_strlit("str_");
    reveal_strlit(":");
    lemma_definition_chars(m);
    lemma_stem_chars();
    lemma_decimal_digits(m);
    let entry = asm_datum(m, cmd);
    let own = label_definition(m);
    let stem = label_stem();
    let opening = "\n"@ + " .asciz \""@;
    let head = own + opening;
    let text = cmd.text();
    assert(entry =~= head + text.push('"').push('\n'));
    assert(head.last() == '"');
    lemma_occurrence_in_joined(head, text.push('"').push('\n'), stem, at);
    lemma_occurrence_before_last(text.push('"'), '\n', stem, at - head.len());
    lemma_occurrence_before_last(text, '"', stem, at - head.len());
    assert(!occurs_at(text, stem, at - head.len()));
    assert(head.subrange(0, 4) =~= stem);
    if occurs_at(head, stem, at) {
        lemma_occurrence_chars(head, stem, at, 0);
        lemma_occurrence_chars(head, stem, at, 1);
        assert(at == 0) by {
            if 0 < at < own.len() {
                assert(head[at] == own[at]);
                if 4 <= at < 4 + decimal(m).len() {
                    assert(own[at] == decimal(m)[at - 4]);
                }
            } else if at >= own.len() {
                assert(head[at] == opening[at - own.len()]);
                assert(head[at + 1] == opening[at + 1 - own.len()]);
            }
        }
    }
}

/// The code of one command defines no label.
proof fn lemma_no_definition_in_call(m: nat, cmd: CommandView, n: nat, at: int)
    ensures
        !occurs_at(asm_call(m, cmd), label_definition(n), at),
{
    reveal_strlit("mov ");
    reveal_strlit(" %edi\n");
    reveal_strlit("call puts\n");
    lemma_reference_chars(m);
    lemma_definition_chars(n);
    let entry = asm_call(m, cmd);
    let own = label_reference(m);
    let pattern = label_definition(n);
    let rest = " %edi\n"@ + "call puts\n"@;
    assert(entry =~= "mov "@ + own + rest);
    assert(entry.subrange(9, entry.len() as int) =~= decimal(m).push(',') + rest);
    if occurs_at(entry, pattern, at) {
        lemma_occurrence_of_beginning(entry, pattern, at, 4);
        lemma_stem_in_call(m, cmd, at);
        let tail = decimal(m).push(',') + rest;
        let wanted = decimal(n).push(':');
        assert(tail.subrange(0, wanted.len() as int) =~= wanted) by {
            assert forall|x: int| 0 <= x < wanted.len() implies tail[x] == wanted[x] by {
                lemma_occurrence_chars(entry, pattern, 5, 4 + x);
                assert(entry.subrange(9, entry.len() as int)[x] == entry[9 + x]);
                assert(pattern.subrange(4, pattern.len() as int)[x] == pattern[4 + x]);
            }
        }
        assert(occurs_prefix(tail, wanted));
        lemma_decimal_prefix_mismatch(n, m, ':', ',', rest);
    }
}

/// The data of one command refers to no label, unless its text spells a
/// reference.
proof fn lemma_no_reference_in_datum(m: nat, cmd: CommandView, n: nat, at: int)
    requires
        !occurs_in(cmd.text(), label_reference(n)),
    ensures
        !occurs_at(asm_datum(m, cmd), label_reference(n), at),
{
    reveal_strlit("\n");
    reveal_strlit(" .asciz \"");
    reveal_strlit("\"\n");
    lemma_definition_chars(m);
    lemma_reference_chars(n);
    let entry = asm_datum(m, cmd);
    let own = label_definition(m);
    let pattern = label_reference(n);
    let opening = "\n"@ + " .asciz \""@;
    let head = own + opening;
    let text = cmd.text();
    assert(entry =~= head + text.push('"').push('\n'));
    assert(head.last() == '"');
    lemma_occurrence_in_joined(head, text.push('"').push('\n'), pattern, at);
    lemma_occurrence_before_last(text.push('"'), '\n', pattern, at - head.len());
    lemma_occurrence_before_last(text, '"', pattern, at - head.len());
    assert(!occurs_at(text, pattern, at - head.len()));
    if occurs_at(head, pattern, at) {
        lemma_occurrence_chars(head, pattern, at, 0);
        if at < own.len() {
            assert(head[at] == own[at]);
            assert(own.contains(own[at]));
        } else {
            assert(head[at] == opening[at - own.len()]);
        }
    }
}

/// The code region defines no label.
proof fn lemma_no_definition_in_code(body: Seq<CommandView>, m: int, n: nat, at: int)
    requires
        0 <= m <= body.len(),
    ensures
        !occurs_at(asm_code_region(body.take(m)), label_definition(n), at),
    decreases m,
{
    let pattern = label_definition(n);
    lemma_definition_chars(n);
    if m == 0 {
        let region = asm_code_region(body.take(0));
        reveal_strlit(".text\n");
        reveal_strlit(".global main\n");
        reveal_strlit("main:\n");
        assert(asm_calls(body.take(0)).flatten() =~= Seq::<char>::empty());
        if occurs_at(region, pattern, at) {
            lemma_occurrence_chars(region, pattern, at, 0);
        }
    } else {
        let before = asm_code_region(body.take(m - 1));
        let entry = asm_call((m - 1) as nat, body[m - 1]);
        lemma_code_region_step(body, m - 1);
        lemma_code_region_end(body.take(m - 1));
        lemma_occurrence_in_joined(before, entry, pattern, at);
        lemma_no_definition_in_code(body, m - 1, n, at);
        lemma_no_definition_in_call((m - 1) as nat, body[m - 1], n, at - before.len());
    }
}

/// The data region refers to no label, unless a text spells a reference.
proof fn lemma_no_reference_in_data(body: Seq<CommandView>, m: int, n: nat, at: int)
    requires
        0 <= m <= body.len(),
        forall|k: int|
            0 <= k < body.len() ==> !occurs_in((#[trigger] body[k]).text(), label_reference(n)),
    ensures
        !occurs_at(asm_data_region(body.take(m)), label_reference(n), at),
    decreases m,
{
    let pattern = label_reference(n);
    lemma_reference_chars(n);
    if m == 0 {
        let region = asm_data_region(body.take(0));
        reveal_strlit(".data\n");
        assert(asm_data(body.take(0)).flatten() =~= Seq::<char>::empty());
        if occurs_at(region, pattern, at) {
            lemma_occurrence_chars(region, pattern, at, 0);
        }
    } else {
        let before = asm_data_region(body.take(m - 1));
        let entry = asm_datum((m - 1) as nat, body[m - 1]);
        lemma_data_region_step(body, m - 1);
        lemma_data_region_end(body.take(m - 1));
        lemma_occurrence_in_joined(before, entry, pattern, at);
        lemma_no_reference_in_data(body, m - 1, n, at);
        lemma_no_reference_in_datum((m - 1) as nat, body[m - 1], n, at - before.len());
    }
}

/// The code of the first `m` commands holds the stem of all labels `m`
/// times.
proof fn lemma_stem_count_code(body: Seq<CommandView>, m: int)
    requires
        0 <= m <= body.len(),
    ensures
        occurrence_count(asm_code_region(body.take(m)), label_stem()) == m,
    decreases m,
{
    let stem = label_stem();
    lemma_stem_chars();
    if m == 0 {
        let region = asm_code_region(body.take(0));
        reveal_strlit(".text\n");
        reveal_strlit(".global main\n");
        reveal_strlit("main:\n");
        assert(asm_calls(body.take(0)).flatten() =~= Seq::<char>::empty());
        assert forall|at: int| !occurs_at(region, stem, at) by {
            if occurs_at(region, stem, at) {
                lemma_occurrence_chars(region, stem, at, 0);
            }
        }
        lemma_count_none(region, stem);
    } else {
        let before = asm_code_region(body.take(m - 1));
        let entry = asm_call((m - 1) as nat, body[m - 1]);
        lemma_code_region_step(body, m - 1);
        lemma_code_region_end(body.take(m - 1));
        lemma_count_joined(before, entry, stem);
        lemma_stem_count_code(body, m - 1);
        assert forall|at: int| occurs_at(entry, stem, at) <==> at == 5 by {
            lemma_stem_in_call((m - 1) as nat, body[m - 1], at);
        }
        lemma_count_one(entry, stem, 5);
    }
}

/// The data of the first `m` commands holds the stem of all labels `m`
/// times, unless a text spells the stem.
proof fn lemma_stem_count_data(body: Seq<CommandView>, m: int)
    requires
        0 <= m <= body.len(),
        forall|k: int| 0 <= k < body.len() ==> !occurs_in((#[trigger] body[k]).text(), label_stem()),
    ensures
        occurrence_count(asm_data_region(body.take(m)), label_stem()) == m,
    decreases m,
{
    let stem = label_stem();
    lemma_stem_chars();
    if m == 0 {
        let region = asm_data_region(body.take(0));
        reveal_strlit(".data\n");
        assert(asm_data(body.take(0)).flatten() =~= Seq::<char>::empty());
        assert forall|at: int| !occurs_at(region, stem, at) by {
            if occurs_at(region, stem, at) {
                lemma_occurrence_chars(region, stem, at, 0);
            }
        }
        lemma_count_none(region, stem);
    } else {
        let before = asm_data_region(body.take(m - 1));
        let entry = asm_datum((m - 1) as nat, body[m - 1]);
        lemma_data_region_step(body, m - 1);
        lemma_data_region_end(body.take(m - 1));
        lemma_count_joined(before, entry, stem);
        lemma_stem_count_data(body, m - 1);
        assert forall|at: int| occurs_at(entry, stem, at) <==> at == 0 by {
            lemma_stem_in_datum((m - 1) as nat, body[m - 1], at);
        }
        lemma_count_one(entry, stem, 0);
    }
}

/// Where the data region begins in the assembly text: right after the code
/// region.
pub open spec fn data_region_start(body: Seq<CommandView>) -> int {
    asm_code_region(body).len() as int
}

/// References in the whole assembly text. The label of each command of the
/// body is referred to exactly once, in the code of that command and so
/// before the data region; no other label is referred to anywhere. This is
/// stated for bodies in which no text itself spells the reference in
/// question.
pub proof fn lemma_text_references(body: Seq<CommandView>, n: nat)
    requires
        forall|k: int|
            0 <= k < body.len() ==> !occurs_in((#[trigger] body[k]).text(), label_reference(n)),
    ensures
        n < body.len() ==> {
            &&& occurrences(asm_text(body), label_reference(n)) == set![
                code_entry_start(body, n) + 4,
            ]
            &&& occurrence_count(asm_text(body), label_reference(n)) == 1
            &&& code_entry_start(body, n) + 4 + label_reference(n).len() <= data_region_start(
                body,
            )
        },
        n >= body.len() ==> {
            &&& occurrences(asm_text(body), label_reference(n)) == Set::<int>::empty()
            &&& occurrence_count(asm_text(body), label_reference(n)) == 0
        },
{
    let whole = asm_text(body);
    let code = asm_code_region(body);
    let data = asm_data_region(body);
    let pattern = label_reference(n);
    let found = occurrences(whole, pattern);
    let spot = code_entry_start(body, n) + 4;
    lemma_reference_chars(n);
    lemma_code_region_end(body);
    assert(body.take(body.len() as int) == body);
    assert forall|at: int| occurs_at(whole, pattern, at) <==> (n < body.len() && at == spot) by {
        lemma_occurrence_in_joined(code, data, pattern, at);
        lemma_references_upto(body, body.len() as int, n, at);
        lemma_no_reference_in_data(body, body.len() as int, n, at - code.len());
    }
    if n < body.len() {
        assert(found =~= set![spot]);
        lemma_count_one(whole, pattern, spot);
        lemma_references_upto(body, body.len() as int, n, spot);
    } else {
        assert(found =~= Set::<int>::empty());
        lemma_count_none(whole, pattern);
    }
}

/// Definitions in the whole assembly text. The label of each command of the
/// body is defined exactly once, at the start of the data of that command
/// and so inside the data region; no other label is defined anywhere. This
/// is stated for bodies in which no text itself spells the definition in
/// question.
pub proof fn lemma_text_definitions(body: Seq<CommandView>, n: nat)
    requires
        forall|k: int|
            0 <= k < body.len() ==> !occurs_in((#[trigger] body[k]).text(), label_definition(n)),
    ensures
        n < body.len() ==> {
            &&& occurrences(asm_text(body), label_definition(n)) == set![
                data_region_start(body) + data_entry_start(body, n),
            ]
            &&& occurrence_count(asm_text(body), label_definition(n)) == 1
            &&& data_entry_start(body, n) > 0
        },
        n >= body.len() ==> {
            &&& occurrences(asm_text(body), label_definition(n)) == Set::<int>::empty()
            &&& occurrence_count(asm_text(body), label_definition(n)) == 0
        },
{
    let whole = asm_text(body);
    let code = asm_code_region(body);
    let data = asm_data_region(body);
    let pattern = label_definition(n);
    let found = occurrences(whole, pattern);
    let spot = data_region_start(body) + data_entry_start(body, n);
    lemma_definition_chars(n);
    lemma_code_region_end(body);
    assert(body.take(body.len() as int) == body);
    assert forall|at: int| occurs_at(whole, pattern, at) <==> (n < body.len() && at == spot) by {
        lemma_occurrence_in_joined(code, data, pattern, at);
        lemma_no_definition_in_code(body, body.len() as int, n, at);
        lemma_definitions_upto(body, body.len() as int, n, at - code.len());
    }
    if n < body.len() {
        assert(found =~= set![spot]);
        lemma_count_one(whole, pattern, spot);
        lemma_data_region_end(body.take(n as int));
    } else {
        assert(found =~= Set::<int>::empty());
        lemma_count_none(whole, pattern);
    }
}

/// Labels in the whole assembly text. A body of `N` commands whose texts do
/// not spell the stem of the labels gives a text that holds the stem `2 * N`
/// times: once in the reference and once in the definition of each command,
/// and nowhere else, so no label is left over and none is repeated.
pub proof fn lemma_text_label_count(body: Seq<CommandView>)
    requires
        forall|k: int| 0 <= k < body.len() ==> !occurs_in((#[trigger] body[k]).text(), label_stem()),
    ensures
        occurrence_count(asm_code_region(body), label_stem()) == body.len(),
        occurrence_count(asm_data_region(body), label_stem()) == body.len(),
        occurrence_count(asm_text(body), label_stem()) == 2 * body.len(),
{
    lemma_stem_chars();
    lemma_code_region_end(body);
    assert(body.take(body.len() as int) == body);
    lemma_stem_count_code(body, body.len() as int);
    lemma_stem_count_data(body, body.len() as int);
    lemma_count_joined(asm_code_region(body), asm_data_region(body), label_stem());
}

/// The code of the first `m` commands is the beginning of the code of the
/// first `k`, for `m` up to `k`.
proof fn lemma_code_region_grows(body: Seq<CommandView>, m: int, k: int)
    requires
        0 <= m <= k <= body.len(),
    ensures
        occurs_prefix(asm_code_region(body.take(k)), asm_code_region(body.take(m))),
    decreases k - m,
{
    let short = asm_code_region(body.take(m));
    if m == k {
        assert(short.subrange(0, short.len() as int) =~= short);
    } else {
        lemma_code_region_grows(body, m, k - 1);
        lemma_code_region_step(body, k - 1);
        let before = asm_code_region(body.take(k - 1));
        let whole = asm_code_region(body.take(k));
        assert(whole.subrange(0, short.len() as int) =~= before.subrange(0, short.len() as int));
    }
}

/// The data of the first `m` commands is the beginning of the data of the
/// first `k`, for `m` up to `k`.
proof fn lemma_data_region_grows(body: Seq<CommandView>, m: int, k: int)
    requires
        0 <= m <= k <= body.len(),
    ensures
        occurs_prefix(asm_data_region(body.take(k)), asm_data_region(body.take(m))),
    decreases k - m,
{
    let short = asm_data_region(body.take(m));
    if m == k {
        assert(short.subrange(0, short.len() as int) =~= short);
    } else {
        lemma_data_region_grows(body, m, k - 1);
        lemma_data_region_step(body, k - 1);
        let before = asm_data_region(body.take(k - 1));
        let whole = asm_data_region(body.take(k));
        assert(whole.subrange(0, short.len() as int) =~= before.subrange(0, short.len() as int));
    }
}

/// Entries in the whole assembly text. Where the code of command number `n`
/// begins, its whole code entry stands, with the reference to its label;
/// where its data begins, its whole data entry stands: the definition of its
/// label and, on the next line, the directive with the text of this very
/// command. Code entries lie before the data region, data entries inside it,
/// both in body order.
pub proof fn lemma_text_entries(body: Seq<CommandView>, n: nat)
    requires
        n < body.len(),
    ensures
        occurs_at(asm_text(body), asm_call(n, body[n as int]), code_entry_start(body, n)),
        occurs_at(
            asm_text(body),
            asm_datum(n, body[n as int]),
            data_region_start(body) + data_entry_start(body, n),
        ),
        code_entry_start(body, n) + asm_call(n, body[n as int]).len() <= data_region_start(body),
        forall|i: nat|
            i < n ==> #[trigger] code_entry_start(body, i) < code_entry_start(body, n)
                && data_entry_start(body, i) < data_entry_start(body, n),
{
    let m = n as int;
    let whole = asm_text(body);
    let code = asm_code_region(body);
    let data = asm_data_region(body);
    let call = asm_call(n, body[m]);
    let datum = asm_datum(n, body[m]);
    assert(body.take(body.len() as int) == body);

    lemma_code_region_step(body, m);
    lemma_code_region_grows(body, m + 1, body.len() as int);
    let code_next = asm_code_region(body.take(m + 1));
    let code_at = code_entry_start(body, n);
    assert(code_next.subrange(code_at, code_at + call.len()) =~= call);
    assert(whole.subrange(code_at, code_at + call.len()) =~= code.subrange(0, code_next.len() as int).subrange(
        code_at,
        code_at + call.len(),
    ));

    lemma_data_region_step(body, m);
    lemma_data_region_grows(body, m + 1, body.len() as int);
    let data_next = asm_data_region(body.take(m + 1));
    let data_at = data_entry_start(body, n);
    assert(data_next.subrange(data_at, data_at + datum.len()) =~= datum);
    assert(whole.subrange(code.len() + data_at, code.len() + data_at + datum.len())
        =~= data.subrange(0, data_next.len() as int).subrange(data_at, data_at + datum.len()));

    assert forall|i: nat| i < n implies #[trigger] code_entry_start(body, i) < code_entry_start(
        body,
        n,
    ) && data_entry_start(body, i) < data_entry_start(body, n) by {
        lemma_code_entries_in_order(body, i, n);
        lemma_data_entries_in_order(body, i, n);
    }
}

/// The header that opens the data region.
pub open spec fn data_header() -> Seq<char> {
    ".data\n"@
}

/// The code of one command holds no full stop.
proof fn lemma_no_stop_in_call(m: nat, cmd: CommandView, at: int)
    requires
        0 <= at < asm_call(m, cmd).len(),
    ensures
        asm_call(m, cmd)[at] != '.',
{
    reveal_strlit("mov ");
    reveal_strlit(" %edi\n");
    reveal_strlit("call puts\n");
    reveal_strlit("$");
    reveal_strlit("str_");
    reveal_strlit(",");
    lemma_decimal_digits(m);
    let entry = asm_call(m, cmd);
    let own = label_reference(m);
    let rest = " %edi\n"@ + "call puts\n"@;
    assert(entry =~= "mov "@ + own + rest);
    assert(own =~= "$"@ + "str_"@ + decimal(m) + ","@);
    if 4 <= at < 4 + own.len() {
        assert(entry[at] == own[at - 4]);
        if 9 <= at < 9 + decimal(m).len() {
            assert(own[at - 4] == decimal(m)[at - 9]);
        }
    } else if at >= 4 + own.len() {
        assert(entry[at] == rest[at - 4 - own.len()]);
    }
}

/// In the code region a full stop is never the last character and is never
/// followed by the letter `d`.
proof fn lemma_stops_in_code(body: Seq<CommandView>, m: int, at: int)
    requires
        0 <= m <= body.len(),
        0 <= at < asm_code_region(body.take(m)).len(),
        asm_code_region(body.take(m))[at] == '.',
    ensures
        at + 1 < asm_code_region(body.take(m)).len(),
        asm_code_region(body.take(m))[at + 1] != 'd',
    decreases m,
{
    if m == 0 {
        reveal_strlit(".text\n");
        reveal_strlit(".global main\n");
        reveal_strlit("main:\n");
        assert(asm_calls(body.take(0)).flatten() =~= Seq::<char>::empty());
    } else {
        let before = asm_code_region(body.take(m - 1));
        let entry = asm_call((m - 1) as nat, body[m - 1]);
        lemma_code_region_step(body, m - 1);
        if at < before.len() {
            lemma_stops_in_code(body, m - 1, at);
        } else {
            lemma_no_stop_in_call((m - 1) as nat, body[m - 1], at - before.len());
        }
    }
}

/// The data region begins where the data header first stands in the
/// assembly text: the code region does not hold the header.
pub proof fn lemma_data_header_first(body: Seq<CommandView>)
    ensures
        occurs_at(asm_text(body), data_header(), data_region_start(body)),
        forall|at: int|
            occurs_at(asm_text(body), data_header(), at) ==> at >= data_region_start(body),
{
    reveal_strlit(".data\n");
    let whole = asm_text(body);
    let code = asm_code_region(body);
    let data = asm_data_region(body);
    let header = data_header();
    assert(whole.subrange(code.len() as int, code.len() + header.len() as int) =~= header);
    assert(body.take(body.len() as int) == body);
    assert forall|at: int| occurs_at(whole, header, at) implies at >= code.len() by {
        if at < code.len() {
            lemma_occurrence_chars(whole, header, at, 0);
            lemma_occurrence_chars(whole, header, at, 1);
            assert(whole[at] == code[at]);
            lemma_stops_in_code(body, body.len() as int, at);
            assert(whole[at + 1] == code[at + 1]);
        }
    }
}

} // verus!
