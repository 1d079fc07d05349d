//! Fresh names over a whole compilation: no label is defined twice and no
//! temporary is declared twice, whatever the program.
//!
//! A line *defines* a name where it is the definition of a generated label
//! (`label '<kind><id>`) or the declaration of a temporary (`let TMP<id> 0`).
//! The laws say that the lines that a compilation adds define only names of
//! ids that it handed out itself, and each of them once.

use vstd::prelude::*;
use crate::ast::{
    BooleanExpressionView, BooleanTest, CodeBlockView, ExpressionView, FileElementView,
    InstructionView,
};
use crate::compiler::{
    ContextView, FunctionContextView, Outcome, call_emitted, call_refusal, compiled_arguments,
    compiled_block, compiled_code, compiled_element, compiled_elements, compiled_expression,
    compiled_file, compiled_instruction, compiled_optional, compiled_test, end_label,
    fresh_name, is_zero, line_call, line_extern, line_func, line_if_zero, line_jump,
    line_label, line_let, line_set, loop_end_label, loop_label, out_cell, temporary,
    zero_label,
};
use crate::compiler_laws::{
    follows, is_kind, is_temporary_form, lemma_arguments_follow, lemma_block_follows,
    lemma_expression_follows, lemma_fresh_name_injective, lemma_instruction_follows,
    lemma_kinds_end_in_a_letter, lemma_optional_follows,
    lemma_temporary_differs_from_user_names, lemma_test_follows,
};
use crate::text::{decimal, is_digit, join, lemma_decimal_is_numeral};

verus! {

/// The line that defines the name of a kind and an id: the declaration of a
/// temporary, or the definition of a label.
pub open spec fn defining_line(kind: Seq<char>, id: nat) -> Seq<char> {
    if kind == "TMP"@ {
        line_let(temporary(id))
    } else {
        line_label(fresh_name(kind, id))
    }
}

/// Whether `line` defines the generated name of the kind and the id.
pub open spec fn defines(line: Seq<char>, kind: Seq<char>, id: nat) -> bool {
    is_kind(kind) && line == defining_line(kind, id)
}

/// Whether the lines from the index `from` on define only names of ids above
/// `lo` and up to `hi`, and none of them twice.
pub open spec fn defined_once(lines: Seq<Seq<char>>, from: nat, lo: nat, hi: nat) -> bool {
    &&& forall|i: int, kind: Seq<char>, id: nat|
        from <= i < lines.len() && #[trigger] defines(lines[i], kind, id) ==> lo < id <= hi
    &&& forall|i: int, j: int, kind: Seq<char>, id: nat|
        from <= i < lines.len() && from <= j < lines.len() && #[trigger] defines(
            lines[i],
            kind,
            id,
        ) && #[trigger] defines(lines[j], kind, id) ==> i == j
}

/// Whether `line` defines no generated name.
pub open spec fn is_plain(line: Seq<char>) -> bool {
    forall|kind: Seq<char>, id: nat| !#[trigger] defines(line, kind, id)
}

/// A defining line begins with `l`; its second character tells a label from
/// a temporary.
pub proof fn lemma_defining_line_start(kind: Seq<char>, id: nat)
    requires
        is_kind(kind),
    ensures
        defining_line(kind, id).len() >= 4,
        defining_line(kind, id)[0] == 'l',
        kind == "TMP"@ ==> defining_line(kind, id)[1] == 'e',
        kind != "TMP"@ ==> defining_line(kind, id)[1] == 'a',
{
    reveal_strlit("let ");
    reveal_strlit("label '");
    if kind == "TMP"@ {
        let line = line_let(temporary(id));
        assert(line[0] == "let "@[0]);
        assert(line[1] == "let "@[1]);
    } else {
        let line = line_label(fresh_name(kind, id));
        assert(line[0] == "label '"@[0]);
        assert(line[1] == "label '"@[1]);
    }
}

/// A line defines at most one name: the kind and the id can be read off it.
pub proof fn lemma_defines_one_name(
    line: Seq<char>,
    kind1: Seq<char>,
    id1: nat,
    kind2: Seq<char>,
    id2: nat,
)
    requires
        defines(line, kind1, id1),
        defines(line, kind2, id2),
    ensures
        kind1 == kind2,
        id1 == id2,
{
    lemma_defining_line_start(kind1, id1);
    lemma_defining_line_start(kind2, id2);
    lemma_kinds_end_in_a_letter(kind1);
    lemma_kinds_end_in_a_letter(kind2);
    if kind1 == "TMP"@ {
        let a = temporary(id1);
        let b = temporary(id2);
        let front = "let "@;
        let back = " 0"@;
        assert(line.len() == front.len() + a.len() + back.len());
        assert(line.len() == front.len() + b.len() + back.len());
        assert(a =~= line.subrange(front.len() as int, line.len() - back.len()));
        assert(b =~= line.subrange(front.len() as int, line.len() - back.len()));
        lemma_fresh_name_injective(kind1, id1, kind2, id2);
    } else {
        let a = fresh_name(kind1, id1);
        let b = fresh_name(kind2, id2);
        let front = "label '"@;
        assert(a =~= line.subrange(front.len() as int, line.len() as int));
        assert(b =~= line.subrange(front.len() as int, line.len() as int));
        lemma_fresh_name_injective(kind1, id1, kind2, id2);
    }
}

/// A line that does not begin with `l` defines no name.
pub proof fn lemma_other_start_is_plain(line: Seq<char>)
    requires
        line.len() == 0 || line[0] != 'l',
    ensures
        is_plain(line),
{
    assert forall|kind: Seq<char>, id: nat| !#[trigger] defines(line, kind, id) by {
        if is_kind(kind) {
            lemma_defining_line_start(kind, id);
        }
    }
}

/// Behind no line, nothing is defined.
pub proof fn lemma_nothing_defined(lines: Seq<Seq<char>>, lo: nat, hi: nat)
    ensures
        defined_once(lines, lines.len(), lo, hi),
{
}

/// What holds of ids in a range holds of them in a wider range.
pub proof fn lemma_defined_once_widens(
    lines: Seq<Seq<char>>,
    from: nat,
    lo: nat,
    hi: nat,
    lo2: nat,
    hi2: nat,
)
    requires
        defined_once(lines, from, lo, hi),
        lo2 <= lo,
        hi <= hi2,
    ensures
        defined_once(lines, from, lo2, hi2),
{
}

/// One more line that defines no name changes nothing.
pub proof fn lemma_plain_line_added(
    lines: Seq<Seq<char>>,
    from: nat,
    lo: nat,
    hi: nat,
    line: Seq<char>,
)
    requires
        defined_once(lines, from, lo, hi),
        is_plain(line),
    ensures
        defined_once(lines.push(line), from, lo, hi),
{
    let more = lines.push(line);
    assert forall|i: int, kind: Seq<char>, id: nat|
        from <= i < more.len() && #[trigger] defines(more[i], kind, id) implies lo < id <= hi by {
        if i < lines.len() {
            assert(defines(lines[i], kind, id));
        }
    }
    assert forall|i: int, j: int, kind: Seq<char>, id: nat|
        from <= i < more.len() && from <= j < more.len() && #[trigger] defines(
            more[i],
            kind,
            id,
        ) && #[trigger] defines(more[j], kind, id) implies i == j by {
        if i < lines.len() && j < lines.len() {
            assert(defines(lines[i], kind, id));
            assert(defines(lines[j], kind, id));
        }
    }
}

/// What a first part and a second part define, each from ids of its own,
/// the two define together.
pub proof fn lemma_defined_once_composes(
    first: Seq<Seq<char>>,
    both: Seq<Seq<char>>,
    from: nat,
    lo: nat,
    mid: nat,
    hi: nat,
)
    requires
        first.len() <= both.len(),
        forall|k: int| 0 <= k < first.len() ==> both[k] == first[k],
        lo <= mid <= hi,
        defined_once(first, from, lo, mid),
        defined_once(both, first.len(), mid, hi),
    ensures
        defined_once(both, from, lo, hi),
{
    assert forall|i: int, kind: Seq<char>, id: nat|
        from <= i < both.len() && #[trigger] defines(both[i], kind, id) implies lo < id <= hi by {
        if i < first.len() {
            assert(defines(first[i], kind, id));
        }
    }
    assert forall|i: int, j: int, kind: Seq<char>, id: nat|
        from <= i < both.len() && from <= j < both.len() && #[trigger] defines(
            both[i],
            kind,
            id,
        ) && #[trigger] defines(both[j], kind, id) implies i == j by {
        if i < first.len() {
            assert(defines(first[i], kind, id));
        }
        if j < first.len() {
            assert(defines(first[j], kind, id));
        }
    }
}

/// The first name of an id: behind lines that define only names of later
/// ids, the defining line of the id adds that one name.
pub proof fn lemma_first_name_added(
    lines: Seq<Seq<char>>,
    from: nat,
    id: nat,
    hi: nat,
    kind: Seq<char>,
)
    requires
        defined_once(lines, from, id, hi),
        is_kind(kind),
        1 <= id <= hi,
    ensures
        defined_once(lines.push(defining_line(kind, id)), from, (id - 1) as nat, hi),
{
    let more = lines.push(defining_line(kind, id));
    let lo = (id - 1) as nat;
    assert forall|i: int, k: Seq<char>, n: nat|
        from <= i < more.len() && #[trigger] defines(more[i], k, n) implies lo < n <= hi by {
        if i < lines.len() {
            assert(defines(lines[i], k, n));
        } else {
            lemma_defines_one_name(more[i], k, n, kind, id);
        }
    }
    assert forall|i: int, j: int, k: Seq<char>, n: nat|
        from <= i < more.len() && from <= j < more.len() && #[trigger] defines(more[i], k, n)
            && #[trigger] defines(more[j], k, n) implies i == j by {
        if i < lines.len() {
            assert(defines(lines[i], k, n));
        } else {
            lemma_defines_one_name(more[i], k, n, kind, id);
        }
        if j < lines.len() {
            assert(defines(lines[j], k, n));
        } else {
            lemma_defines_one_name(more[j], k, n, kind, id);
        }
    }
}

/// The second name of an id. The lines are: a front that defines only names
/// of later ids; the defining line of the id for another kind; a back that
/// defines only names of yet later ids. The defining line of the id for
/// `kind` adds that one name.
pub proof fn lemma_second_name_added(
    front: Seq<Seq<char>>,
    lines: Seq<Seq<char>>,
    from: nat,
    id: nat,
    mid: nat,
    hi: nat,
    other: Seq<char>,
    kind: Seq<char>,
)
    requires
        front.len() + 1 <= lines.len(),
        forall|k: int| 0 <= k < front.len() ==> lines[k] == front[k],
        lines[front.len() as int] == defining_line(other, id),
        is_kind(other),
        is_kind(kind),
        other != kind,
        1 <= id <= mid <= hi,
        from <= front.len(),
        defined_once(front, from, id, mid),
        defined_once(lines, front.len() + 1, mid, hi),
    ensures
        defined_once(lines.push(defining_line(kind, id)), from, (id - 1) as nat, hi),
{
    let more = lines.push(defining_line(kind, id));
    let lo = (id - 1) as nat;
    let p = front.len() as int;
    assert(defines(lines[p], other, id));
    assert forall|i: int, k: Seq<char>, n: nat|
        from <= i < more.len() && #[trigger] defines(more[i], k, n) implies (lo < n <= hi && (n
            == id ==> (i == p && k == other) || (i == lines.len() && k == kind))) by {
        if i < p {
            assert(defines(front[i], k, n));
        } else if i == p {
            lemma_defines_one_name(more[i], k, n, other, id);
        } else if i < lines.len() {
            assert(defines(lines[i], k, n));
        } else {
            lemma_defines_one_name(more[i], k, n, kind, id);
        }
    }
    assert forall|i: int, j: int, k: Seq<char>, n: nat|
        from <= i < more.len() && from <= j < more.len() && #[trigger] defines(more[i], k, n)
            && #[trigger] defines(more[j], k, n) implies i == j by {
        if i == p {
            lemma_defines_one_name(more[i], k, n, other, id);
        }
        if i == lines.len() {
            lemma_defines_one_name(more[i], k, n, kind, id);
        }
        if j == p {
            lemma_defines_one_name(more[j], k, n, other, id);
        }
        if j == lines.len() {
            lemma_defines_one_name(more[j], k, n, kind, id);
        }
        if i < p {
            assert(defines(front[i], k, n));
        }
        if p < i < lines.len() {
            assert(defines(lines[i], k, n));
        }
        if j < p {
            assert(defines(front[j], k, n));
        }
        if p < j < lines.len() {
            assert(defines(lines[j], k, n));
        }
    }
}


/// The lines that store, jump, call and frame a function define no name.
pub proof fn lemma_control_lines_are_plain(a: Seq<char>, b: Seq<char>, places: Seq<Seq<char>>)
    ensures
        is_plain(line_set(a, b)),
        is_plain(line_if_zero(a, b)),
        is_plain(line_jump(a)),
        is_plain(line_call(a, places)),
        is_plain(line_func(a, places)),
        is_plain("end_func"@),
        is_plain("ret"@),
{
    reveal_strlit("set ");
    reveal_strlit("if_0 ");
    reveal_strlit("jump '");
    reveal_strlit("call ");
    reveal_strlit("func ");
    reveal_strlit("end_func");
    reveal_strlit("ret");
    assert(line_set(a, b)[0] == "set "@[0]);
    assert(line_if_zero(a, b)[0] == "if_0 "@[0]);
    assert(line_jump(a)[0] == "jump '"@[0]);
    assert(line_call(a, places)[0] == "call "@[0]);
    assert(line_func(a, places)[0] == "func "@[0]);
    lemma_other_start_is_plain(line_set(a, b));
    lemma_other_start_is_plain(line_if_zero(a, b));
    lemma_other_start_is_plain(line_jump(a));
    lemma_other_start_is_plain(line_call(a, places));
    lemma_other_start_is_plain(line_func(a, places));
    lemma_other_start_is_plain("end_func"@);
    lemma_other_start_is_plain("ret"@);
}

/// The declaration of a variable whose name has not the form of a temporary
/// defines no name.
pub proof fn lemma_variable_line_is_plain(name: Seq<char>)
    requires
        !is_temporary_form(name),
    ensures
        is_plain(line_let(name)),
{
    let line = line_let(name);
    reveal_strlit("let ");
    assert(line[1] == "let "@[1]);
    assert forall|kind: Seq<char>, id: nat| !#[trigger] defines(line, kind, id) by {
        if defines(line, kind, id) {
            lemma_defining_line_start(kind, id);
            let other = temporary(id);
            let front = "let "@;
            let back = " 0"@;
            assert(line.len() == front.len() + name.len() + back.len());
            assert(line.len() == front.len() + other.len() + back.len());
            assert(name =~= line.subrange(front.len() as int, line.len() - back.len()));
            assert(other =~= line.subrange(front.len() as int, line.len() - back.len()));
            lemma_temporary_differs_from_user_names(name, id);
        }
    }
}

/// The name of a function's result cell has not the form of a temporary.
pub proof fn lemma_out_cell_is_no_temporary(name: Seq<char>)
    ensures
        !is_temporary_form(out_cell(name)),
{
    let cell = out_cell(name);
    reveal_strlit("_out");
    reveal_strlit("TMP");
    if is_temporary_form(cell) {
        let rest = cell.subrange("TMP"@.len() as int, cell.len() as int);
        assert(cell.len() == name.len() + 4);
        assert(cell[cell.len() - 1] == "_out"@[3]);
        assert(rest[rest.len() - 1] == cell[cell.len() - 1]);
        assert(is_digit(rest[rest.len() - 1]));
    }
}

/// The names of functions of the target whose calls could be taken for a
/// defining line: `label`, `let`, and `let TMP<id>`.
pub open spec fn shadows(name: Seq<char>) -> bool {
    ||| name == "label"@
    ||| name == "let"@
    ||| exists|id: nat| name == "let "@ + #[trigger] temporary(id)
}

/// The kinds of generated name hold no space.
pub proof fn lemma_kinds_hold_no_space(kind: Seq<char>)
    requires
        is_kind(kind),
    ensures
        forall|i: int| 0 <= i < kind.len() ==> #[trigger] kind[i] != ' ',
{
    reveal_strlit("if_true");
    reveal_strlit("if_false");
    reveal_strlit("if_end");
    reveal_strlit("for");
    reveal_strlit("for_end");
    reveal_strlit("TMP");
}

/// The call of a function of the target defines no name, unless the
/// function is named like the front of a defining line.
pub proof fn lemma_extern_line_is_plain(name: Seq<char>, places: Seq<Seq<char>>)
    requires
        !shadows(name),
    ensures
        is_plain(line_extern(name, places)),
{
    let line = line_extern(name, places);
    let m = name.len() as int;
    reveal_strlit(" ");
    assert(line.len() == name.len() + 1 + join(places, ' ').len());
    assert(line[m] == " "@[0]);
    assert forall|kind: Seq<char>, id: nat| !#[trigger] defines(line, kind, id) by {
        if defines(line, kind, id) {
            lemma_kinds_hold_no_space(kind);
            lemma_decimal_is_numeral(id);
            let digits = decimal(id);
            assert forall|i: int| 0 <= i < digits.len() implies #[trigger] digits[i] != ' ' by {
                assert(is_digit(digits[i]));
            }
            if kind == "TMP"@ {
                reveal_strlit("let ");
                reveal_strlit(" 0");
                reveal_strlit("let");
                let t = temporary(id);
                let front = "let "@;
                assert(t.len() == kind.len() + digits.len());
                assert(line.len() == 4 + t.len() + 2);
                assert forall|i: int| 0 <= i < line.len() && line[i] == ' ' implies i == 3 || i
                    == line.len() - 2 by {
                    if 4 <= i < 4 + t.len() {
                        assert(line[i] == t[i - 4]);
                        if i - 4 < kind.len() {
                            assert(t[i - 4] == kind[i - 4]);
                        } else {
                            assert(t[i - 4] == digits[i - 4 - kind.len()]);
                        }
                    } else if i < 4 {
                        assert(line[i] == front[i]);
                    } else {
                        assert(line[i] == " 0"@[i - 4 - t.len()]);
                    }
                }
                if m == 3 {
                    assert(name =~= line.subrange(0, 3));
                    assert(line.subrange(0, 3) =~= "let"@);
                } else {
                    assert(name =~= line.subrange(0, m));
                    assert(line.subrange(0, m) =~= front + t);
                    assert(name == "let "@ + temporary(id));
                }
            } else {
                reveal_strlit("label '");
                reveal_strlit("label");
                let front = "label '"@;
                assert(line.len() == 7 + kind.len() + digits.len());
                assert forall|i: int| 0 <= i < line.len() && line[i] == ' ' implies i == 5 by {
                    if i < 7 {
                        assert(line[i] == front[i]);
                    } else if i < 7 + kind.len() {
                        assert(line[i] == kind[i - 7]);
                    } else {
                        assert(line[i] == digits[i - 7 - kind.len()]);
                    }
                }
                assert(name =~= line.subrange(0, 5));
                assert(line.subrange(0, 5) =~= "label"@);
            }
        }
    }
}


/// Whether no declared function of the target is named like the front of a
/// defining line.
pub open spec fn externs_are_harmless(c: ContextView) -> bool {
    forall|name: Seq<char>|
        #[trigger] c.functions.contains_key(name) && c.functions[name].0 ==> !shadows(name)
}

/// Whether no declared variable has a name of the form of a temporary.
pub open spec fn variables_are_plain(c: ContextView) -> bool {
    forall|name: Seq<char>| #[trigger] c.vars.contains(name) ==> !is_temporary_form(name)
}

/// What holds of the functions before holds behind; what holds of the
/// variables behind held before.
pub proof fn lemma_hypotheses_carry(before: ContextView, after: ContextView)
    requires
        follows(before, after),
    ensures
        externs_are_harmless(before) ==> externs_are_harmless(after),
        variables_are_plain(after) ==> variables_are_plain(before),
{
    if variables_are_plain(after) {
        assert forall|name: Seq<char>| #[trigger] before.vars.contains(name) implies
            !is_temporary_form(name) by {
            assert(after.vars.contains(name));
        }
    }
}

/// The kinds of label are five different texts, and none is `TMP`.
pub proof fn lemma_label_kinds()
    ensures
        is_kind("if_true"@),
        is_kind("if_false"@),
        is_kind("if_end"@),
        is_kind("for"@),
        is_kind("for_end"@),
        is_kind("TMP"@),
        "if_true"@ != "TMP"@,
        "if_false"@ != "TMP"@,
        "if_end"@ != "TMP"@,
        "for"@ != "TMP"@,
        "for_end"@ != "TMP"@,
        "if_true"@ != "if_end"@,
        "if_false"@ != "if_end"@,
        "for"@ != "for_end"@,
{
    reveal_strlit("if_true");
    reveal_strlit("if_false");
    reveal_strlit("if_end");
    reveal_strlit("for");
    reveal_strlit("for_end");
    reveal_strlit("TMP");
    assert("if_true"@.len() == 7 && "if_false"@.len() == 8 && "if_end"@.len() == 6);
    assert("for"@.len() == 3 && "for_end"@.len() == 7 && "TMP"@.len() == 3);
    assert("for"@[0] != "TMP"@[0]);
    assert("if_true"@[0] != "for_end"@[0]);
}

/// The lines of a call define its temporary and nothing else.
pub proof fn lemma_call_lines_define_once(
    c: ContextView,
    from: nat,
    id: nat,
    name: Seq<char>,
    is_extern: bool,
    places: Seq<Seq<char>>,
)
    requires
        defined_once(c.lines, from, id, c.counter),
        1 <= id <= c.counter,
        is_extern ==> !shadows(name),
    ensures
        defined_once(
            call_emitted(c, name, is_extern, id, places).lines,
            from,
            (id - 1) as nat,
            c.counter,
        ),
{
    lemma_label_kinds();
    if is_extern {
        lemma_extern_line_is_plain(name, places);
        lemma_plain_line_added(c.lines, from, id, c.counter, line_extern(name, places));
    } else {
        lemma_control_lines_are_plain(name, name, places);
        let called = c.lines.push(line_call(name, places));
        lemma_plain_line_added(c.lines, from, id, c.counter, line_call(name, places));
        lemma_first_name_added(called, from, id, c.counter, "TMP"@);
        let declared = called.push(line_let(temporary(id)));
        lemma_control_lines_are_plain(temporary(id), out_cell(name), places);
        lemma_plain_line_added(
            declared,
            from,
            (id - 1) as nat,
            c.counter,
            line_set(temporary(id), out_cell(name)),
        );
    }
}

/// The lines that compiling an expression adds define only names of ids
/// that it hands out, each once.
pub proof fn lemma_expression_defines_once(e: ExpressionView, c: ContextView)
    requires
        externs_are_harmless(c),
        variables_are_plain(compiled_expression(e, c).context),
    ensures
        defined_once(
            compiled_expression(e, c).context.lines,
            c.lines.len(),
            c.counter,
            compiled_expression(e, c).context.counter,
        ),
    decreases e, 0nat,
{
    let o = compiled_expression(e, c);
    lemma_nothing_defined(c.lines, c.counter, o.context.counter);
    match e {
        ExpressionView::Number(_) => {},
        ExpressionView::Variable(name) => {
            if !c.is_parameter(name) && !c.vars.contains(name) {
                assert(o.context.vars.contains(name));
                lemma_variable_line_is_plain(name);
                lemma_plain_line_added(
                    c.lines,
                    c.lines.len(),
                    c.counter,
                    c.counter,
                    line_let(name),
                );
            }
        },
        ExpressionView::FunctionCall(name, args) => {
            if !c.exhausted() {
                let id = c.counter + 1;
                let opened = c.with_counter(id);
                if call_refusal(opened, name, args.len()) is None {
                    let a = compiled_arguments(args, args.len(), opened);
                    lemma_arguments_follow(args, args.len(), opened);
                    assert(o.context.vars == a.context.vars);
                    lemma_arguments_define_once(args, args.len(), opened);
                    if a.failure is Some {
                        lemma_defined_once_widens(
                            a.context.lines,
                            c.lines.len(),
                            id,
                            a.context.counter,
                            c.counter,
                            a.context.counter,
                        );
                    } else {
                        assert(opened.functions.contains_key(name));
                        lemma_call_lines_define_once(
                            a.context,
                            c.lines.len(),
                            id,
                            name,
                            opened.functions[name].0,
                            a.outs,
                        );
                    }
                }
            }
        },
    }
}

/// The lines that compiling arguments adds define only names of ids that it
/// hands out, each once.
pub proof fn lemma_arguments_define_once(args: Seq<ExpressionView>, n: nat, c: ContextView)
    requires
        externs_are_harmless(c),
        variables_are_plain(compiled_arguments(args, n, c).context),
    ensures
        defined_once(
            compiled_arguments(args, n, c).context.lines,
            c.lines.len(),
            c.counter,
            compiled_arguments(args, n, c).context.counter,
        ),
    decreases args, n,
{
    if n == 0 || n > args.len() {
        lemma_nothing_defined(c.lines, c.counter, c.counter);
    } else {
        let before = compiled_arguments(args, (n - 1) as nat, c);
        lemma_arguments_follow(args, (n - 1) as nat, c);
        if before.failure is Some {
            lemma_arguments_define_once(args, (n - 1) as nat, c);
        } else {
            let o = compiled_expression(args[n - 1], before.context);
            lemma_expression_follows(args[n - 1], before.context);
            lemma_hypotheses_carry(c, before.context);
            lemma_hypotheses_carry(before.context, o.context);
            lemma_arguments_define_once(args, (n - 1) as nat, c);
            lemma_expression_defines_once(args[n - 1], before.context);
            lemma_defined_once_composes(
                before.context.lines,
                o.context.lines,
                c.lines.len(),
                c.counter,
                before.context.counter,
                o.context.counter,
            );
        }
    }
}

/// The lines that compiling a tested value adds define only names of ids
/// that it hands out, each once.
pub proof fn lemma_test_defines_once(test: BooleanExpressionView, c: ContextView)
    requires
        externs_are_harmless(c),
        variables_are_plain(compiled_test(test, c).context),
    ensures
        defined_once(
            compiled_test(test, c).context.lines,
            c.lines.len(),
            c.counter,
            compiled_test(test, c).context.counter,
        ),
    decreases test, 0nat,
{
    let o = compiled_test(test, c);
    lemma_nothing_defined(c.lines, c.counter, o.context.counter);
    if is_zero(test.2) {
        lemma_expression_defines_once(test.0, c);
    } else if is_zero(test.0) {
        lemma_expression_defines_once(test.2, c);
    } else if !c.exhausted() {
        let id = c.counter + 1;
        let opened = c.with_counter(id);
        if call_refusal(opened, "sub"@, 2) is None {
            let left = compiled_expression(test.0, opened);
            lemma_expression_follows(test.0, opened);
            if left.failure is Some {
                lemma_expression_defines_once(test.0, opened);
                lemma_defined_once_widens(
                    left.context.lines,
                    c.lines.len(),
                    id,
                    left.context.counter,
                    c.counter,
                    left.context.counter,
                );
            } else {
                let right = compiled_expression(test.2, left.context);
                lemma_expression_follows(test.2, left.context);
                assert(o.context.vars == right.context.vars);
                lemma_hypotheses_carry(opened, left.context);
                lemma_hypotheses_carry(left.context, right.context);
                lemma_expression_defines_once(test.0, opened);
                lemma_expression_defines_once(test.2, left.context);
                lemma_defined_once_composes(
                    left.context.lines,
                    right.context.lines,
                    c.lines.len(),
                    id,
                    left.context.counter,
                    right.context.counter,
                );
                if right.failure is Some {
                    lemma_defined_once_widens(
                        right.context.lines,
                        c.lines.len(),
                        id,
                        right.context.counter,
                        c.counter,
                        right.context.counter,
                    );
                } else {
                    assert(opened.functions.contains_key("sub"@));
                    lemma_call_lines_define_once(
                        right.context,
                        c.lines.len(),
                        id,
                        "sub"@,
                        opened.functions["sub"@].0,
                        seq![left.context.out, right.context.out],
                    );
                }
            }
        }
    }
}


/// The kind of the label that a conditional jumps to on zero.
pub open spec fn zero_kind(test: BooleanTest) -> Seq<char> {
    match test {
        BooleanTest::Equals => "if_true"@,
        BooleanTest::NotEquals => "if_false"@,
    }
}

/// The state of a conditional once its test line is emitted.
pub open spec fn conditional_branch(test: BooleanExpressionView, c: ContextView) -> ContextView {
    let id = c.counter + 1;
    let tested = compiled_test(test, c.with_counter(id)).context;
    tested.emit(line_if_zero(tested.out, zero_label(test.1, id)))
}

/// What compiling the block behind the test line of a conditional leads to.
pub open spec fn conditional_first(
    test: BooleanExpressionView,
    then_block: CodeBlockView,
    else_block: Option<CodeBlockView>,
    c: ContextView,
) -> Outcome {
    match test.1 {
        BooleanTest::Equals => compiled_optional(else_block, conditional_branch(test, c)),
        BooleanTest::NotEquals => compiled_block(
            then_block.code,
            then_block.code.len(),
            conditional_branch(test, c),
        ),
    }
}

/// The state of a conditional once the jump to its end is emitted.
pub open spec fn conditional_jumped(
    test: BooleanExpressionView,
    then_block: CodeBlockView,
    else_block: Option<CodeBlockView>,
    c: ContextView,
) -> ContextView {
    conditional_first(test, then_block, else_block, c).context.emit(
        line_jump(end_label(c.counter + 1)),
    )
}

/// The state of a conditional once the label jumped to on zero is emitted.
pub open spec fn conditional_landed(
    test: BooleanExpressionView,
    then_block: CodeBlockView,
    else_block: Option<CodeBlockView>,
    c: ContextView,
) -> ContextView {
    conditional_jumped(test, then_block, else_block, c).emit(
        line_label(zero_label(test.1, c.counter + 1)),
    )
}

/// What compiling the block behind the label of a conditional leads to.
pub open spec fn conditional_second(
    test: BooleanExpressionView,
    then_block: CodeBlockView,
    else_block: Option<CodeBlockView>,
    c: ContextView,
) -> Outcome {
    match test.1 {
        BooleanTest::Equals => compiled_block(
            then_block.code,
            then_block.code.len(),
            conditional_landed(test, then_block, else_block, c),
        ),
        BooleanTest::NotEquals => compiled_optional(
            else_block,
            conditional_landed(test, then_block, else_block, c),
        ),
    }
}

/// The lines that compiling an instruction adds define only names of ids
/// that it hands out, each once.
pub proof fn lemma_instruction_defines_once(i: InstructionView, c: ContextView)
    requires
        externs_are_harmless(c),
        variables_are_plain(compiled_instruction(i, c).context),
    ensures
        defined_once(
            compiled_instruction(i, c).context.lines,
            c.lines.len(),
            c.counter,
            compiled_instruction(i, c).context.counter,
        ),
    decreases i, 2nat,
{
    let o = compiled_instruction(i, c);
    let from = c.lines.len();
    lemma_nothing_defined(c.lines, c.counter, o.context.counter);
    lemma_label_kinds();
    match i {
        InstructionView::Expression(e) => {
            lemma_expression_defines_once(e, c);
        },
        InstructionView::If(test, then_block, else_block) => {
            if !c.exhausted() {
                lemma_conditional_defines_once(i, c);
            }
        },
        InstructionView::Loop(body) => {
            if !c.exhausted() {
                let id = c.counter + 1;
                let entered = c.with_counter(id).emit(line_label(loop_label(id))).enter_loop(id);
                let inside = compiled_block(body.code, body.code.len(), entered);
                lemma_block_follows(body.code, body.code.len(), entered);
                assert(o.context.vars == inside.context.vars);
                lemma_nothing_defined(c.lines, id, id);
                lemma_first_name_added(c.lines, from, id, id, "for"@);
                assert(entered.lines == c.lines.push(defining_line("for"@, id)));
                lemma_block_defines_once(body.code, body.code.len(), entered);
                if inside.failure is Some {
                    lemma_defined_once_composes(
                        entered.lines,
                        inside.context.lines,
                        from,
                        c.counter,
                        id,
                        inside.context.counter,
                    );
                } else {
                    lemma_second_name_added(
                        c.lines,
                        inside.context.lines,
                        from,
                        id,
                        id,
                        inside.context.counter,
                        "for"@,
                        "for_end"@,
                    );
                    assert(o.context.lines == inside.context.lines.push(
                        defining_line("for_end"@, id),
                    ));
                }
            }
        },
        InstructionView::Return(value) => {
            if let Some(f) = c.function {
                lemma_control_lines_are_plain(out_cell(f.name), c.out, Seq::empty());
                match value {
                    None => {
                        lemma_plain_line_added(c.lines, from, c.counter, c.counter, "ret"@);
                    },
                    Some(e) => {
                        let v = compiled_expression(e, c);
                        assert(o.context.vars == v.context.vars);
                        lemma_expression_defines_once(e, c);
                        if v.failure is None {
                            let stored = line_set(out_cell(f.name), v.context.out);
                            lemma_control_lines_are_plain(
                                out_cell(f.name),
                                v.context.out,
                                Seq::empty(),
                            );
                            lemma_plain_line_added(
                                v.context.lines,
                                from,
                                c.counter,
                                v.context.counter,
                                stored,
                            );
                            lemma_plain_line_added(
                                v.context.lines.push(stored),
                                from,
                                c.counter,
                                v.context.counter,
                                "ret"@,
                            );
                        }
                    },
                }
            }
        },
        InstructionView::Assign(target, value) => {
            let v = compiled_expression(value, c);
            assert(o.context.vars == v.context.vars);
            lemma_expression_defines_once(value, c);
            if v.failure is None {
                lemma_control_lines_are_plain(target, v.context.out, Seq::empty());
                lemma_plain_line_added(
                    v.context.lines,
                    from,
                    c.counter,
                    v.context.counter,
                    line_set(target, v.context.out),
                );
            }
        },
        InstructionView::Continue => {
            if c.loops.len() > 0 {
                let line = line_jump(loop_label(c.loops.last()));
                lemma_control_lines_are_plain(loop_label(c.loops.last()), c.out, Seq::empty());
                lemma_plain_line_added(c.lines, from, c.counter, c.counter, line);
            }
        },
        InstructionView::Break => {
            if c.loops.len() > 0 {
                let line = line_jump(loop_end_label(c.loops.last()));
                lemma_control_lines_are_plain(
                    loop_end_label(c.loops.last()),
                    c.out,
                    Seq::empty(),
                );
                lemma_plain_line_added(c.lines, from, c.counter, c.counter, line);
            }
        },
    }
}

/// The lines of a conditional up to the jump to its end define only names
/// of ids that were handed out behind its own, each once.
pub proof fn lemma_conditional_front(i: InstructionView, c: ContextView)
    requires
        i is If,
        !c.exhausted(),
        externs_are_harmless(c),
        compiled_test(i->If_0, c.with_counter(c.counter + 1)).failure is None,
        variables_are_plain(conditional_first(i->If_0, i->If_1, i->If_2, c).context),
    ensures
        defined_once(
            conditional_jumped(i->If_0, i->If_1, i->If_2, c).lines,
            c.lines.len(),
            c.counter + 1,
            conditional_first(i->If_0, i->If_1, i->If_2, c).context.counter,
        ),
        defined_once(
            conditional_first(i->If_0, i->If_1, i->If_2, c).context.lines,
            c.lines.len(),
            c.counter + 1,
            conditional_first(i->If_0, i->If_1, i->If_2, c).context.counter,
        ),
        follows(
            c.with_counter(c.counter + 1),
            conditional_first(i->If_0, i->If_1, i->If_2, c).context,
        ),
    decreases i, 0nat,
{
    match i {
        InstructionView::If(test, then_block, else_block) => {
            let from = c.lines.len();
            let id = c.counter + 1;
            let opened = c.with_counter(id);
            let tested = compiled_test(test, opened);
            let branch = conditional_branch(test, c);
            let first = conditional_first(test, then_block, else_block, c);
            lemma_test_follows(test, opened);
            lemma_hypotheses_carry(opened, tested.context);
            match test.1 {
                BooleanTest::Equals => {
                    lemma_optional_follows(else_block, branch);
                },
                BooleanTest::NotEquals => {
                    lemma_block_follows(then_block.code, then_block.code.len(), branch);
                },
            }
            lemma_hypotheses_carry(branch, first.context);
            assert(variables_are_plain(tested.context));
            lemma_test_defines_once(test, opened);
            lemma_control_lines_are_plain(
                tested.context.out,
                zero_label(test.1, id),
                Seq::empty(),
            );
            lemma_plain_line_added(
                tested.context.lines,
                from,
                id,
                tested.context.counter,
                line_if_zero(tested.context.out, zero_label(test.1, id)),
            );
            match test.1 {
                BooleanTest::Equals => {
                    lemma_optional_defines_once(else_block, branch);
                },
                BooleanTest::NotEquals => {
                    lemma_block_defines_once(then_block.code, then_block.code.len(), branch);
                },
            }
            lemma_defined_once_composes(
                branch.lines,
                first.context.lines,
                from,
                id,
                branch.counter,
                first.context.counter,
            );
            lemma_control_lines_are_plain(end_label(id), c.out, Seq::empty());
            lemma_plain_line_added(
                first.context.lines,
                from,
                id,
                first.context.counter,
                line_jump(end_label(id)),
            );
        },
        _ => {},
    }
}

/// The lines that compiling a conditional adds define its two labels, the
/// names of what stands inside it, and nothing else.
pub proof fn lemma_conditional_defines_once(i: InstructionView, c: ContextView)
    requires
        i is If,
        !c.exhausted(),
        externs_are_harmless(c),
        variables_are_plain(compiled_instruction(i, c).context),
    ensures
        defined_once(
            compiled_instruction(i, c).context.lines,
            c.lines.len(),
            c.counter,
            compiled_instruction(i, c).context.counter,
        ),
    decreases i, 1nat,
{
    let o = compiled_instruction(i, c);
    let from = c.lines.len();
    match i {
        InstructionView::If(test, then_block, else_block) => {
            let id = c.counter + 1;
            let opened = c.with_counter(id);
            let tested = compiled_test(test, opened);
            if tested.failure is Some {
                lemma_test_follows(test, opened);
                lemma_test_defines_once(test, opened);
                lemma_defined_once_widens(
                    tested.context.lines,
                    from,
                    id,
                    tested.context.counter,
                    c.counter,
                    tested.context.counter,
                );
            } else {
                let first = conditional_first(test, then_block, else_block, c);
                let jumped = conditional_jumped(test, then_block, else_block, c);
                let landed = conditional_landed(test, then_block, else_block, c);
                let second = conditional_second(test, then_block, else_block, c);
                if first.failure is Some {
                    assert(o == first);
                    lemma_conditional_front(i, c);
                    lemma_defined_once_widens(
                        first.context.lines,
                        from,
                        id,
                        first.context.counter,
                        c.counter,
                        first.context.counter,
                    );
                } else {
                    match test.1 {
                        BooleanTest::Equals => {
                            lemma_block_follows(then_block.code, then_block.code.len(), landed);
                        },
                        BooleanTest::NotEquals => {
                            lemma_optional_follows(else_block, landed);
                        },
                    }
                    assert(o.context.vars == second.context.vars);
                    lemma_hypotheses_carry(landed, second.context);
                    assert(variables_are_plain(first.context));
                    lemma_conditional_front(i, c);
                    lemma_hypotheses_carry(opened, first.context);
                    match test.1 {
                        BooleanTest::Equals => {
                            lemma_block_defines_once(
                                then_block.code,
                                then_block.code.len(),
                                landed,
                            );
                        },
                        BooleanTest::NotEquals => {
                            lemma_optional_defines_once(else_block, landed);
                        },
                    }
                    lemma_conditional_labels(test.1, id);
                    assert(landed.lines[jumped.lines.len() as int] == line_label(
                        zero_label(test.1, id),
                    ));
                    assert(second.context.lines[jumped.lines.len() as int]
                        == landed.lines[jumped.lines.len() as int]);
                    assert forall|k: int|
                        0 <= k < jumped.lines.len() implies second.context.lines[k]
                        == jumped.lines[k] by {
                        assert(second.context.lines[k] == landed.lines[k]);
                    }
                    lemma_conditional_back(
                        jumped.lines,
                        second.context.lines,
                        from,
                        id,
                        first.context.counter,
                        second.context.counter,
                        zero_kind(test.1),
                        second.failure is Some,
                    );
                }
            }
        },
        _ => {},
    }
}

/// The labels of a conditional are the defining lines of its two kinds.
pub proof fn lemma_conditional_labels(test: BooleanTest, id: nat)
    ensures
        is_kind(zero_kind(test)),
        zero_kind(test) != "if_end"@,
        line_label(zero_label(test, id)) == defining_line(zero_kind(test), id),
        line_label(end_label(id)) == defining_line("if_end"@, id),
{
    lemma_label_kinds();
}

/// The lines of a conditional from its label on: behind the front stands
/// the label that is jumped to on zero, behind it the lines of a block and,
/// where the block went through, the end label.
pub proof fn lemma_conditional_back(
    front: Seq<Seq<char>>,
    lines: Seq<Seq<char>>,
    from: nat,
    id: nat,
    mid: nat,
    hi: nat,
    kind: Seq<char>,
    stopped: bool,
)
    requires
        front.len() + 1 <= lines.len(),
        forall|k: int| 0 <= k < front.len() ==> lines[k] == front[k],
        lines[front.len() as int] == defining_line(kind, id),
        is_kind(kind),
        kind != "if_end"@,
        1 <= id <= mid <= hi,
        from <= front.len(),
        defined_once(front, from, id, mid),
        defined_once(lines, front.len() + 1, mid, hi),
    ensures
        stopped ==> defined_once(lines, from, (id - 1) as nat, hi),
        !stopped ==> defined_once(
            lines.push(defining_line("if_end"@, id)),
            from,
            (id - 1) as nat,
            hi,
        ),
{
    lemma_label_kinds();
    if stopped {
        lemma_first_name_added(front, from, id, mid, kind);
        let landed = front.push(defining_line(kind, id));
        lemma_defined_once_composes(landed, lines, from, (id - 1) as nat, mid, hi);
    } else {
        lemma_second_name_added(front, lines, from, id, mid, hi, kind, "if_end"@);
    }
}

/// The lines that compiling a block that may be absent adds define only
/// names of ids that it hands out, each once.
pub proof fn lemma_optional_defines_once(block: Option<CodeBlockView>, c: ContextView)
    requires
        externs_are_harmless(c),
        variables_are_plain(compiled_optional(block, c).context),
    ensures
        defined_once(
            compiled_optional(block, c).context.lines,
            c.lines.len(),
            c.counter,
            compiled_optional(block, c).context.counter,
        ),
    decreases block, 0nat,
{
    match block {
        Some(b) => {
            lemma_block_defines_once(b.code, b.code.len(), c);
        },
        None => {
            lemma_nothing_defined(c.lines, c.counter, c.counter);
        },
    }
}

/// The lines that compiling a block adds define only names of ids that it
/// hands out, each once.
pub proof fn lemma_block_defines_once(code: Seq<InstructionView>, n: nat, c: ContextView)
    requires
        externs_are_harmless(c),
        variables_are_plain(compiled_block(code, n, c).context),
    ensures
        defined_once(
            compiled_block(code, n, c).context.lines,
            c.lines.len(),
            c.counter,
            compiled_block(code, n, c).context.counter,
        ),
    decreases code, n,
{
    if n == 0 || n > code.len() {
        lemma_nothing_defined(c.lines, c.counter, c.counter);
    } else {
        let before = compiled_block(code, (n - 1) as nat, c);
        lemma_block_follows(code, (n - 1) as nat, c);
        if before.failure is Some {
            lemma_block_defines_once(code, (n - 1) as nat, c);
        } else {
            let o = compiled_instruction(code[n - 1], before.context);
            lemma_instruction_follows(code[n - 1], before.context);
            lemma_hypotheses_carry(c, before.context);
            lemma_hypotheses_carry(before.context, o.context);
            lemma_block_defines_once(code, (n - 1) as nat, c);
            lemma_instruction_defines_once(code[n - 1], before.context);
            lemma_defined_once_composes(
                before.context.lines,
                o.context.lines,
                c.lines.len(),
                c.counter,
                before.context.counter,
                o.context.counter,
            );
        }
    }
}


/// Whether `after` can follow `before` across the elements of a file: the
/// counter has not gone back, the lines of `before` still stand at the
/// front, and no variable is forgotten.
pub open spec fn extends(before: ContextView, after: ContextView) -> bool {
    &&& before.counter <= after.counter
    &&& before.lines.len() <= after.lines.len()
    &&& forall|k: int| 0 <= k < before.lines.len() ==> after.lines[k] == before.lines[k]
    &&& before.vars.subset_of(after.vars)
}

/// Compiling an element only adds lines and variables and only raises the
/// counter.
pub proof fn lemma_element_extends(e: FileElementView, c: ContextView)
    ensures
        extends(c, compiled_element(e, c).context),
{
    match e {
        FileElementView::Function(name, parameters, body) => {
            if name == "main"@ {
                lemma_block_follows(body.code, body.code.len(), c.with_function(None));
            } else {
                let opened = c.emit(line_let(out_cell(name))).emit(
                    line_func(name, parameters),
                ).with_function(
                    Some(FunctionContextView { name, arguments: parameters.to_set() }),
                );
                lemma_block_follows(body.code, body.code.len(), opened);
            }
        },
        FileElementView::FunctionExtern(_, _) => {},
    }
}

/// Compiling elements only adds lines and variables and only raises the
/// counter.
pub proof fn lemma_elements_extend(elements: Seq<FileElementView>, n: nat, c: ContextView)
    ensures
        extends(c, compiled_elements(elements, n, c).context),
    decreases n,
{
    if !(n == 0 || n > elements.len()) {
        lemma_elements_extend(elements, (n - 1) as nat, c);
        let before = compiled_elements(elements, (n - 1) as nat, c);
        if before.failure is None {
            lemma_element_extends(elements[n - 1], before.context);
        }
    }
}

/// What holds of the variables behind held before.
pub proof fn lemma_plain_variables_carry(before: ContextView, after: ContextView)
    requires
        extends(before, after),
        variables_are_plain(after),
    ensures
        variables_are_plain(before),
{
    assert forall|name: Seq<char>| #[trigger] before.vars.contains(name) implies
        !is_temporary_form(name) by {
        assert(after.vars.contains(name));
    }
}

/// Whether an element declares a function of the target that is named like
/// the front of a defining line.
pub open spec fn is_shadowing_extern(e: FileElementView) -> bool {
    e is FunctionExtern && shadows(e->FunctionExtern_0)
}

/// The lines that compiling an element adds define only names of ids that
/// it hands out, each once.
pub proof fn lemma_element_defines_once(e: FileElementView, c: ContextView)
    requires
        externs_are_harmless(c),
        variables_are_plain(compiled_element(e, c).context),
        !is_shadowing_extern(e),
    ensures
        defined_once(
            compiled_element(e, c).context.lines,
            c.lines.len(),
            c.counter,
            compiled_element(e, c).context.counter,
        ),
        externs_are_harmless(compiled_element(e, c).context),
{
    let o = compiled_element(e, c);
    let from = c.lines.len();
    lemma_nothing_defined(c.lines, c.counter, c.counter);
    match e {
        FileElementView::Function(name, parameters, body) => {
            if name == "main"@ {
                let start = c.with_function(None);
                lemma_block_follows(body.code, body.code.len(), start);
                lemma_block_defines_once(body.code, body.code.len(), start);
                lemma_hypotheses_carry(start, o.context);
            } else {
                let declared = c.emit(line_let(out_cell(name)));
                let framed = declared.emit(line_func(name, parameters));
                let opened = framed.with_function(
                    Some(FunctionContextView { name, arguments: parameters.to_set() }),
                );
                let inside = compiled_code(body, opened);
                lemma_block_follows(body.code, body.code.len(), opened);
                assert(o.context.vars == inside.context.vars);
                lemma_out_cell_is_no_temporary(name);
                lemma_variable_line_is_plain(out_cell(name));
                lemma_control_lines_are_plain(name, name, parameters);
                lemma_plain_line_added(
                    c.lines,
                    from,
                    c.counter,
                    c.counter,
                    line_let(out_cell(name)),
                );
                lemma_plain_line_added(
                    declared.lines,
                    from,
                    c.counter,
                    c.counter,
                    line_func(name, parameters),
                );
                lemma_block_defines_once(body.code, body.code.len(), opened);
                lemma_defined_once_composes(
                    opened.lines,
                    inside.context.lines,
                    from,
                    c.counter,
                    c.counter,
                    inside.context.counter,
                );
                lemma_hypotheses_carry(opened, inside.context);
                if inside.failure is None {
                    lemma_plain_line_added(
                        inside.context.lines,
                        from,
                        c.counter,
                        inside.context.counter,
                        "end_func"@,
                    );
                    assert forall|other: Seq<char>|
                        #[trigger] o.context.functions.contains_key(other)
                            && o.context.functions[other].0 implies !shadows(other) by {
                        assert(other != name);
                        assert(inside.context.functions.contains_key(other));
                    }
                }
            }
        },
        FileElementView::FunctionExtern(name, parameters) => {
            assert forall|other: Seq<char>|
                #[trigger] o.context.functions.contains_key(other)
                    && o.context.functions[other].0 implies !shadows(other) by {
                if other != name {
                    assert(c.functions.contains_key(other));
                }
            }
        },
    }
}

/// The lines that compiling the elements of a file adds define only names
/// of ids that it hands out, each once.
pub proof fn lemma_elements_define_once(elements: Seq<FileElementView>, n: nat, c: ContextView)
    requires
        n <= elements.len(),
        externs_are_harmless(c),
        variables_are_plain(compiled_elements(elements, n, c).context),
        forall|k: int| 0 <= k < n ==> !is_shadowing_extern(#[trigger] elements[k]),
    ensures
        defined_once(
            compiled_elements(elements, n, c).context.lines,
            c.lines.len(),
            c.counter,
            compiled_elements(elements, n, c).context.counter,
        ),
        externs_are_harmless(compiled_elements(elements, n, c).context),
    decreases n,
{
    if n == 0 {
        lemma_nothing_defined(c.lines, c.counter, c.counter);
    } else {
        let before = compiled_elements(elements, (n - 1) as nat, c);
        lemma_elements_extend(elements, (n - 1) as nat, c);
        if before.failure is Some {
            lemma_elements_define_once(elements, (n - 1) as nat, c);
        } else {
            let o = compiled_element(elements[n - 1], before.context);
            lemma_element_extends(elements[n - 1], before.context);
            lemma_plain_variables_carry(before.context, o.context);
            lemma_elements_define_once(elements, (n - 1) as nat, c);
            lemma_element_defines_once(elements[n - 1], before.context);
            lemma_defined_once_composes(
                before.context.lines,
                o.context.lines,
                c.lines.len(),
                c.counter,
                before.context.counter,
                o.context.counter,
            );
        }
    }
}

/// Whether all the lines of a state define only names of ids that were
/// handed out, each once.
pub open spec fn names_are_fresh(c: ContextView) -> bool {
    defined_once(c.lines, 0, 0, c.counter)
}

/// In the lines of a whole file, no label is defined twice and no temporary
/// is declared twice, and each carries an id that the compilation handed
/// out. This holds of every file in which no variable is named like a
/// temporary (`TMP<numeral>`) and no function of the target is named
/// `label`, `let` or `let TMP<numeral>`; it holds of what was emitted up to
/// a failure, too.
pub proof fn lemma_names_are_defined_once(elements: Seq<FileElementView>)
    requires
        variables_are_plain(compiled_file(elements).context),
        forall|k: int| 0 <= k < elements.len() ==> !is_shadowing_extern(#[trigger] elements[k]),
    ensures
        names_are_fresh(compiled_file(elements).context),
        forall|i: int, j: int, kind: Seq<char>, id: nat|
            0 <= i < compiled_file(elements).context.lines.len() && 0 <= j < compiled_file(
                elements,
            ).context.lines.len() && #[trigger] defines(
                compiled_file(elements).context.lines[i],
                kind,
                id,
            ) && #[trigger] defines(compiled_file(elements).context.lines[j], kind, id) ==> i
                == j,
{
    lemma_elements_define_once(elements, elements.len(), ContextView::initial());
}

/// Compiling an instruction keeps the names fresh: where the lines so far
/// define only names of ids that were handed out, each once, the same holds
/// behind the instruction, whether it went through or not. Nested and
/// neighbouring conditionals and loops never define the same label twice.
pub proof fn lemma_instruction_keeps_names_fresh(i: InstructionView, c: ContextView)
    requires
        names_are_fresh(c),
        externs_are_harmless(c),
        variables_are_plain(compiled_instruction(i, c).context),
    ensures
        names_are_fresh(compiled_instruction(i, c).context),
{
    let o = compiled_instruction(i, c);
    lemma_instruction_follows(i, c);
    lemma_instruction_defines_once(i, c);
    lemma_defined_once_composes(
        c.lines,
        o.context.lines,
        0,
        0,
        c.counter,
        o.context.counter,
    );
}

/// Compiling an expression keeps the names fresh.
pub proof fn lemma_expression_keeps_names_fresh(e: ExpressionView, c: ContextView)
    requires
        names_are_fresh(c),
        externs_are_harmless(c),
        variables_are_plain(compiled_expression(e, c).context),
    ensures
        names_are_fresh(compiled_expression(e, c).context),
{
    let o = compiled_expression(e, c);
    lemma_expression_follows(e, c);
    lemma_expression_defines_once(e, c);
    lemma_defined_once_composes(
        c.lines,
        o.context.lines,
        0,
        0,
        c.counter,
        o.context.counter,
    );
}

/// A call of a compiled function that goes through declares its temporary
/// exactly once: the last line but one is the declaration, and among all
/// the lines no other is.
pub proof fn lemma_call_declares_its_temporary_once(
    name: Seq<char>,
    args: Seq<ExpressionView>,
    c: ContextView,
)
    requires
        names_are_fresh(c),
        externs_are_harmless(c),
        compiled_expression(ExpressionView::FunctionCall(name, args), c).failure is None,
        variables_are_plain(
            compiled_expression(ExpressionView::FunctionCall(name, args), c).context,
        ),
        !c.functions[name].0,
    ensures
        ({
            let o = compiled_expression(ExpressionView::FunctionCall(name, args), c).context;
            let declaration = line_let(temporary(c.counter + 1));
            &&& o.out == temporary(c.counter + 1)
            &&& o.lines.len() >= 3
            &&& o.lines[o.lines.len() - 2] == declaration
            &&& forall|j: int|
                0 <= j < o.lines.len() && #[trigger] o.lines[j] == declaration ==> j
                    == o.lines.len() - 2
        }),
{
    let e = ExpressionView::FunctionCall(name, args);
    let o = compiled_expression(e, c).context;
    let id = c.counter + 1;
    let declaration = line_let(temporary(id));
    lemma_label_kinds();
    lemma_expression_keeps_names_fresh(e, c);
    assert(defines(o.lines[o.lines.len() - 2], "TMP"@, id));
    assert forall|j: int| 0 <= j < o.lines.len() && #[trigger] o.lines[j] == declaration implies j
        == o.lines.len() - 2 by {
        assert(defines(o.lines[j], "TMP"@, id));
    }
}

} // verus!
