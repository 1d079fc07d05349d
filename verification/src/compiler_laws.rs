//! What holds of every compilation by the front end, proved from the
//! functions that say what it does.

use vstd::prelude::*;
use crate::ast::{
    BooleanExpressionView, BooleanTest, CodeBlockView, ExpressionView, FileElement,
    FileElementView, InstructionView, element_views,
};
use crate::compiler::{
    call_refusal, compiled_arguments, compiled_block, compiled_code,
    compiled_element, compiled_elements, compiled_expression, compiled_file,
    compiled_instruction, compiled_optional, compiled_test, done, end_label, failed,
    fresh_name, is_zero, line_func, line_if_zero, line_jump, line_label, line_let, line_set,
    loop_end_label, loop_label, out_cell, temporary, zero_label, ContextView, Failure,
    FunctionContextView, Outcome,
};
use crate::text::{
    decimal, is_digit, is_numeral, lemma_decimal_injective, lemma_decimal_is_numeral,
    starts_with,
};

verus! {

/// Whether `after` can follow `before` inside one element: the declared
/// functions and the function around the code are the same, the counter has
/// not gone back, the lines of `before` still stand at the front, and no
/// variable is forgotten.
pub open spec fn follows(before: ContextView, after: ContextView) -> bool {
    &&& after.functions == before.functions
    &&& after.function == before.function
    &&& before.counter <= after.counter
    &&& before.lines.len() <= after.lines.len()
    &&& forall|k: int| 0 <= k < before.lines.len() ==> after.lines[k] == before.lines[k]
    &&& before.vars.subset_of(after.vars)
}

/// Whether an outcome can follow `before`, with the same loops around the
/// code where it went through.
pub open spec fn follows_on(before: ContextView, o: Outcome) -> bool {
    &&& follows(before, o.context)
    &&& o.failure is None ==> o.context.loops == before.loops
}

/// Compiling an expression only adds lines and variables and only raises
/// the counter.
pub proof fn lemma_expression_follows(e: ExpressionView, c: ContextView)
    ensures
        follows_on(c, compiled_expression(e, c)),
    decreases e, 0nat,
{
    match e {
        ExpressionView::FunctionCall(name, args) => {
            if !c.exhausted() {
                let opened = c.with_counter(c.counter + 1);
                if call_refusal(opened, name, args.len()) is None {
                    lemma_arguments_follow(args, args.len(), opened);
                }
            }
        },
        _ => {},
    }
}

/// Compiling arguments only adds lines and variables and only raises the
/// counter.
pub proof fn lemma_arguments_follow(args: Seq<ExpressionView>, n: nat, c: ContextView)
    ensures
        follows(c, compiled_arguments(args, n, c).context),
        compiled_arguments(args, n, c).failure is None ==> compiled_arguments(
            args,
            n,
            c,
        ).context.loops == c.loops,
    decreases args, n,
{
    if !(n == 0 || n > args.len()) {
        lemma_arguments_follow(args, (n - 1) as nat, c);
        let before = compiled_arguments(args, (n - 1) as nat, c);
        if before.failure is None {
            lemma_expression_follows(args[n - 1], before.context);
        }
    }
}

/// Compiling the tested value only adds lines and variables and only raises
/// the counter.
pub proof fn lemma_test_follows(test: BooleanExpressionView, c: ContextView)
    ensures
        follows_on(c, compiled_test(test, c)),
    decreases test, 0nat,
{
    if is_zero(test.2) {
        lemma_expression_follows(test.0, c);
    } else if is_zero(test.0) {
        lemma_expression_follows(test.2, c);
    } else if !c.exhausted() {
        let opened = c.with_counter(c.counter + 1);
        if call_refusal(opened, "sub"@, 2) is None {
            lemma_expression_follows(test.0, opened);
            let left = compiled_expression(test.0, opened);
            if left.failure is None {
                lemma_expression_follows(test.2, left.context);
            }
        }
    }
}

/// Compiling an instruction only adds lines and variables and only raises
/// the counter; where it goes through, the loops around the code are the
/// same behind it.
pub proof fn lemma_instruction_follows(i: InstructionView, c: ContextView)
    ensures
        follows_on(c, compiled_instruction(i, c)),
    decreases i, 0nat,
{
    match i {
        InstructionView::Expression(e) => {
            lemma_expression_follows(e, c);
        },
        InstructionView::If(test, then_block, else_block) => {
            if !c.exhausted() {
                let id = c.counter + 1;
                lemma_test_follows(test, c.with_counter(id));
                let tested = compiled_test(test, c.with_counter(id));
                if tested.failure is None {
                    let branch = tested.context.emit(
                        line_if_zero(tested.context.out, zero_label(test.1, id)),
                    );
                    match test.1 {
                        BooleanTest::Equals => {
                            lemma_optional_follows(else_block, branch);
                        },
                        BooleanTest::NotEquals => {
                            lemma_block_follows(then_block.code, then_block.code.len(), branch);
                        },
                    }
                    let first = match test.1 {
                        BooleanTest::Equals => compiled_optional(else_block, branch),
                        BooleanTest::NotEquals => compiled_block(
                            then_block.code,
                            then_block.code.len(),
                            branch,
                        ),
                    };
                    if first.failure is None {
                        let landed = first.context.emit(line_jump(end_label(id))).emit(
                            line_label(zero_label(test.1, id)),
                        );
                        match test.1 {
                            BooleanTest::Equals => {
                                lemma_block_follows(
                                    then_block.code,
                                    then_block.code.len(),
                                    landed,
                                );
                            },
                            BooleanTest::NotEquals => {
                                lemma_optional_follows(else_block, landed);
                            },
                        }
                    }
                }
            }
        },
        InstructionView::Loop(body) => {
            if !c.exhausted() {
                let id = c.counter + 1;
                let entered = c.with_counter(id).emit(line_label(loop_label(id))).enter_loop(id);
                lemma_block_follows(body.code, body.code.len(), entered);
                let inside = compiled_block(body.code, body.code.len(), entered);
                if inside.failure is None {
                    assert(entered.loops.drop_last() =~= c.loops);
                }
            }
        },
        InstructionView::Return(value) => {
            if c.function is Some {
                if let Some(e) = value {
                    lemma_expression_follows(e, c);
                }
            }
        },
        InstructionView::Assign(_, value) => {
            lemma_expression_follows(value, c);
        },
        InstructionView::Continue => {},
        InstructionView::Break => {},
    }
}

/// Compiling a block that may be absent only adds lines and variables and
/// only raises the counter.
pub proof fn lemma_optional_follows(block: Option<CodeBlockView>, c: ContextView)
    ensures
        follows_on(c, compiled_optional(block, c)),
    decreases block, 0nat,
{
    if let Some(b) = block {
        lemma_block_follows(b.code, b.code.len(), c);
    }
}

/// Compiling a block only adds lines and variables and only raises the
/// counter.
pub proof fn lemma_block_follows(code: Seq<InstructionView>, n: nat, c: ContextView)
    ensures
        follows_on(c, compiled_block(code, n, c)),
    decreases code, n,
{
    if !(n == 0 || n > code.len()) {
        lemma_block_follows(code, (n - 1) as nat, c);
        let before = compiled_block(code, (n - 1) as nat, c);
        if before.failure is None {
            lemma_instruction_follows(code[n - 1], before.context);
        }
    }
}


/// The kinds of name that the front end makes from a fresh id: the five
/// kinds of label and the temporary.
pub open spec fn is_kind(kind: Seq<char>) -> bool {
    ||| kind == "if_true"@
    ||| kind == "if_false"@
    ||| kind == "if_end"@
    ||| kind == "for"@
    ||| kind == "for_end"@
    ||| kind == "TMP"@
}

/// Each kind of generated name ends in a letter.
pub proof fn lemma_kinds_end_in_a_letter(kind: Seq<char>)
    requires
        is_kind(kind),
    ensures
        kind.len() > 0,
        !is_digit(kind.last()),
{
    reveal_strlit("if_true");
    reveal_strlit("if_false");
    reveal_strlit("if_end");
    reveal_strlit("for");
    reveal_strlit("for_end");
    reveal_strlit("TMP");
}

/// A name made of a kind that ends in a letter and of a numeral tells both:
/// two such names are the same only where the kinds and the ids are.
pub proof fn lemma_fresh_name_injective(kind1: Seq<char>, id1: nat, kind2: Seq<char>, id2: nat)
    requires
        kind1.len() > 0,
        kind2.len() > 0,
        !is_digit(kind1.last()),
        !is_digit(kind2.last()),
        fresh_name(kind1, id1) == fresh_name(kind2, id2),
    ensures
        kind1 == kind2,
        id1 == id2,
{
    let n1 = fresh_name(kind1, id1);
    let n2 = fresh_name(kind2, id2);
    lemma_decimal_is_numeral(id1);
    lemma_decimal_is_numeral(id2);
    assert(n1.len() == kind1.len() + decimal(id1).len());
    assert(n2.len() == kind2.len() + decimal(id2).len());
    if kind1.len() < kind2.len() {
        let k = kind2.len() - 1;
        assert(n2[k] == kind2.last());
        assert(n1[k] == decimal(id1)[k - kind1.len()]);
        assert(false);
    }
    if kind2.len() < kind1.len() {
        let k = kind1.len() - 1;
        assert(n1[k] == kind1.last());
        assert(n2[k] == decimal(id2)[k - kind2.len()]);
        assert(false);
    }
    assert(kind1 =~= n1.subrange(0, kind1.len() as int));
    assert(kind2 =~= n2.subrange(0, kind2.len() as int));
    assert(decimal(id1) =~= n1.subrange(kind1.len() as int, n1.len() as int));
    assert(decimal(id2) =~= n2.subrange(kind2.len() as int, n2.len() as int));
    lemma_decimal_injective(id1, id2);
}

/// Fresh names do not collide: two labels or temporaries that differ in
/// their kind or in their id are different texts.
pub proof fn lemma_generated_names_differ(kind1: Seq<char>, id1: nat, kind2: Seq<char>, id2: nat)
    requires
        is_kind(kind1),
        is_kind(kind2),
        kind1 != kind2 || id1 != id2,
    ensures
        fresh_name(kind1, id1) != fresh_name(kind2, id2),
{
    lemma_kinds_end_in_a_letter(kind1);
    lemma_kinds_end_in_a_letter(kind2);
    if fresh_name(kind1, id1) == fresh_name(kind2, id2) {
        lemma_fresh_name_injective(kind1, id1, kind2, id2);
    }
}

/// An id that is handed out later makes new names: whatever state `later`
/// is reached once the id behind `earlier` was handed out, the next id
/// makes names that differ from all names made of the earlier one.
pub proof fn lemma_later_names_are_new(
    kind1: Seq<char>,
    kind2: Seq<char>,
    earlier: ContextView,
    later: ContextView,
)
    requires
        is_kind(kind1),
        is_kind(kind2),
        follows(earlier.with_counter(earlier.counter + 1), later),
    ensures
        fresh_name(kind1, earlier.counter + 1) != fresh_name(kind2, later.counter + 1),
{
    lemma_generated_names_differ(kind1, earlier.counter + 1, kind2, later.counter + 1);
}

/// Whether a name has the form of a temporary: `TMP`, then a numeral.
pub open spec fn is_temporary_form(name: Seq<char>) -> bool {
    &&& starts_with(name, "TMP"@)
    &&& is_numeral(name.subrange("TMP"@.len() as int, name.len() as int))
}

/// A temporary never collides with a name of the user's, unless the user
/// chose a name of the form `TMP<numeral>`.
pub proof fn lemma_temporary_differs_from_user_names(name: Seq<char>, id: nat)
    requires
        !is_temporary_form(name),
    ensures
        temporary(id) != name,
{
    let t = temporary(id);
    lemma_decimal_is_numeral(id);
    assert(t.subrange(0, "TMP"@.len() as int) =~= "TMP"@);
    assert(t.subrange("TMP"@.len() as int, t.len() as int) =~= decimal(id));
}


/// The lines that stand in `after` behind those of `before`.
pub open spec fn emitted_between(before: ContextView, after: ContextView) -> Seq<Seq<char>> {
    after.lines.subrange(before.lines.len() as int, after.lines.len() as int)
}

/// The layout of a compiled `==`. Behind the lines that compute the tested
/// value stands the jump taken on zero. The lines of the else block follow
/// it, so they run where the value is not zero, and end in the jump to the
/// end label. Behind the label jumped to on zero stand the lines of the then
/// block, so they run where the value is zero, and behind them the end
/// label.
pub proof fn lemma_equals_layout(
    test: BooleanExpressionView,
    then_block: CodeBlockView,
    else_block: Option<CodeBlockView>,
    c: ContextView,
)
    requires
        test.1 == BooleanTest::Equals,
        compiled_instruction(InstructionView::If(test, then_block, else_block), c).failure is None,
    ensures
        ({
            let id = c.counter + 1;
            let zero = fresh_name("if_true"@, id);
            let lines = compiled_instruction(
                InstructionView::If(test, then_block, else_block),
                c,
            ).context.lines;
            let tested = compiled_test(test, c.with_counter(id)).context;
            let branch = tested.emit(line_if_zero(tested.out, zero));
            let other = compiled_optional(else_block, branch).context;
            let landed = other.emit(line_jump(end_label(id))).emit(line_label(zero));
            let then = compiled_code(then_block, landed).context;
            let p = tested.lines.len() as int;
            let q = other.lines.len() as int;
            let r = then.lines.len() as int;
            &&& p < q <= r - 2
            &&& lines.len() == r + 1
            &&& lines.subrange(0, p) == tested.lines
            &&& lines[p] == line_if_zero(tested.out, zero)
            &&& lines.subrange(p + 1, q) == emitted_between(branch, other)
            &&& lines[q] == line_jump(end_label(id))
            &&& lines[q + 1] == line_label(zero)
            &&& lines.subrange(q + 2, r) == emitted_between(landed, then)
            &&& lines[r] == line_label(end_label(id))
        }),
{
    let id = c.counter + 1;
    let zero = fresh_name("if_true"@, id);
    let lines = compiled_instruction(
        InstructionView::If(test, then_block, else_block),
        c,
    ).context.lines;
    let tested = compiled_test(test, c.with_counter(id)).context;
    let branch = tested.emit(line_if_zero(tested.out, zero));
    lemma_optional_follows(else_block, branch);
    let other = compiled_optional(else_block, branch).context;
    let landed = other.emit(line_jump(end_label(id))).emit(line_label(zero));
    lemma_block_follows(then_block.code, then_block.code.len(), landed);
    let then = compiled_code(then_block, landed).context;
    let p = tested.lines.len() as int;
    let q = other.lines.len() as int;
    let r = then.lines.len() as int;
    assert(lines == then.lines.push(line_label(end_label(id))));
    assert(lines.subrange(0, p) =~= tested.lines);
    assert(lines.subrange(p + 1, q) =~= emitted_between(branch, other));
    assert(lines.subrange(q + 2, r) =~= emitted_between(landed, then));
    assert(lines[p] == branch.lines[p]);
    assert(lines[q] == landed.lines[q]);
    assert(lines[q + 1] == landed.lines[q + 1]);
}

/// The layout of a compiled `!=`: that of `==` with the two blocks in each
/// other's place. The lines of the then block follow the jump taken on zero,
/// so they run where the value is not zero. Behind the label jumped to on
/// zero stand the lines of the else block, so they run where the value is
/// zero.
pub proof fn lemma_not_equals_layout(
    test: BooleanExpressionView,
    then_block: CodeBlockView,
    else_block: Option<CodeBlockView>,
    c: ContextView,
)
    requires
        test.1 == BooleanTest::NotEquals,
        compiled_instruction(InstructionView::If(test, then_block, else_block), c).failure is None,
    ensures
        ({
            let id = c.counter + 1;
            let zero = fresh_name("if_false"@, id);
            let lines = compiled_instruction(
                InstructionView::If(test, then_block, else_block),
                c,
            ).context.lines;
            let tested = compiled_test(test, c.with_counter(id)).context;
            let branch = tested.emit(line_if_zero(tested.out, zero));
            let then = compiled_code(then_block, branch).context;
            let landed = then.emit(line_jump(end_label(id))).emit(line_label(zero));
            let other = compiled_optional(else_block, landed).context;
            let p = tested.lines.len() as int;
            let q = then.lines.len() as int;
            let r = other.lines.len() as int;
            &&& p < q <= r - 2
            &&& lines.len() == r + 1
            &&& lines.subrange(0, p) == tested.lines
            &&& lines[p] == line_if_zero(tested.out, zero)
            &&& lines.subrange(p + 1, q) == emitted_between(branch, then)
            &&& lines[q] == line_jump(end_label(id))
            &&& lines[q + 1] == line_label(zero)
            &&& lines.subrange(q + 2, r) == emitted_between(landed, other)
            &&& lines[r] == line_label(end_label(id))
        }),
{
    let id = c.counter + 1;
    let zero = fresh_name("if_false"@, id);
    let lines = compiled_instruction(
        InstructionView::If(test, then_block, else_block),
        c,
    ).context.lines;
    let tested = compiled_test(test, c.with_counter(id)).context;
    let branch = tested.emit(line_if_zero(tested.out, zero));
    lemma_block_follows(then_block.code, then_block.code.len(), branch);
    let then = compiled_code(then_block, branch).context;
    let landed = then.emit(line_jump(end_label(id))).emit(line_label(zero));
    lemma_optional_follows(else_block, landed);
    let other = compiled_optional(else_block, landed).context;
    let p = tested.lines.len() as int;
    let q = then.lines.len() as int;
    let r = other.lines.len() as int;
    assert(lines == other.lines.push(line_label(end_label(id))));
    assert(lines.subrange(0, p) =~= tested.lines);
    assert(lines.subrange(p + 1, q) =~= emitted_between(branch, then));
    assert(lines.subrange(q + 2, r) =~= emitted_between(landed, other));
    assert(lines[p] == branch.lines[p]);
    assert(lines[q] == landed.lines[q]);
    assert(lines[q + 1] == landed.lines[q + 1]);
}

/// The state in which the body of a loop is compiled: the loop has its id,
/// its start label is emitted, and it is the innermost loop.
pub open spec fn loop_entered(c: ContextView) -> ContextView {
    c.with_counter(c.counter + 1).emit(line_label(loop_label(c.counter + 1))).enter_loop(
        c.counter + 1,
    )
}

/// The layout of a compiled loop: its start label, the lines of its body,
/// its end label. Behind it the loops around the code are those before it.
pub proof fn lemma_loop_layout(body: CodeBlockView, c: ContextView)
    requires
        compiled_instruction(InstructionView::Loop(body), c).failure is None,
    ensures
        ({
            let id = c.counter + 1;
            let o = compiled_instruction(InstructionView::Loop(body), c).context;
            let inside = compiled_code(body, loop_entered(c)).context;
            let p = c.lines.len() as int;
            let r = inside.lines.len() as int;
            &&& p < r
            &&& o.lines.len() == r + 1
            &&& o.lines.subrange(0, p) == c.lines
            &&& o.lines[p] == line_label(loop_label(id))
            &&& o.lines.subrange(p + 1, r) == emitted_between(loop_entered(c), inside)
            &&& o.lines[r] == line_label(loop_end_label(id))
            &&& o.loops == c.loops
        }),
{
    let id = c.counter + 1;
    let o = compiled_instruction(InstructionView::Loop(body), c).context;
    let entered = loop_entered(c);
    lemma_block_follows(body.code, body.code.len(), entered);
    lemma_instruction_follows(InstructionView::Loop(body), c);
    let inside = compiled_code(body, entered).context;
    let p = c.lines.len() as int;
    let r = inside.lines.len() as int;
    assert(o.lines == inside.lines.push(line_label(loop_end_label(id))));
    assert(o.lines.subrange(0, p) =~= c.lines);
    assert(o.lines.subrange(p + 1, r) =~= emitted_between(entered, inside));
    assert(o.lines[p] == entered.lines[p]);
}

/// Before each instruction of a loop's body, the loop is the innermost one.
pub proof fn lemma_loop_body_is_inside(body: CodeBlockView, k: nat, c: ContextView)
    requires
        k <= body.code.len(),
        compiled_block(body.code, k, loop_entered(c)).failure is None,
    ensures
        compiled_block(body.code, k, loop_entered(c)).context.loops == c.loops.push(
            c.counter + 1,
        ),
        compiled_block(body.code, k, loop_entered(c)).context.loops.last() == c.counter + 1,
{
    lemma_block_follows(body.code, k, loop_entered(c));
}

/// Inside a loop, `continue` is the jump to the start label of the innermost
/// loop, and `break` the jump to its end label.
pub proof fn lemma_loop_jumps(c: ContextView)
    requires
        c.loops.len() > 0,
    ensures
        compiled_instruction(InstructionView::Continue, c) == done(
            c.emit(line_jump(loop_label(c.loops.last()))),
        ),
        compiled_instruction(InstructionView::Break, c) == done(
            c.emit(line_jump(loop_end_label(c.loops.last()))),
        ),
{
}

/// Outside of every loop, `continue` and `break` fail and emit nothing.
pub proof fn lemma_loop_jumps_need_a_loop(c: ContextView)
    requires
        c.loops.len() == 0,
    ensures
        compiled_instruction(InstructionView::Continue, c) == failed(
            c,
            Failure::NoEnclosingLoop,
        ),
        compiled_instruction(InstructionView::Break, c) == failed(c, Failure::NoEnclosingLoop),
{
}

/// The results of two calls of compiled functions stand in different
/// temporaries, whatever is compiled between them: the copy of the first
/// result is not the target of the second call's copy.
pub proof fn lemma_call_results_stand_apart(
    name1: Seq<char>,
    args1: Seq<ExpressionView>,
    c1: ContextView,
    name2: Seq<char>,
    args2: Seq<ExpressionView>,
    c2: ContextView,
)
    requires
        compiled_expression(ExpressionView::FunctionCall(name1, args1), c1).failure is None,
        compiled_expression(ExpressionView::FunctionCall(name2, args2), c2).failure is None,
        !c1.functions[name1].0,
        !c2.functions[name2].0,
        follows(compiled_expression(ExpressionView::FunctionCall(name1, args1), c1).context, c2),
    ensures
        ({
            let first = compiled_expression(ExpressionView::FunctionCall(name1, args1), c1).context;
            let second = compiled_expression(
                ExpressionView::FunctionCall(name2, args2),
                c2,
            ).context;
            &&& first.out == temporary(c1.counter + 1)
            &&& first.lines.last() == line_set(first.out, out_cell(name1))
            &&& second.out == temporary(c2.counter + 1)
            &&& second.lines.last() == line_set(second.out, out_cell(name2))
            &&& first.out != second.out
        }),
{
    let opened1 = c1.with_counter(c1.counter + 1);
    let opened2 = c2.with_counter(c2.counter + 1);
    lemma_arguments_follow(args1, args1.len(), opened1);
    lemma_arguments_follow(args2, args2.len(), opened2);
    lemma_generated_names_differ("TMP"@, c1.counter + 1, "TMP"@, c2.counter + 1);
}

/// The declaration of a function of the target emits nothing and declares
/// the function, which from then on can be called with exactly as many
/// arguments as it has parameters.
pub proof fn lemma_extern_declaration(
    name: Seq<char>,
    parameters: Seq<Seq<char>>,
    c: ContextView,
    arity: nat,
)
    ensures
        ({
            let o = compiled_element(FileElementView::FunctionExtern(name, parameters), c);
            &&& o.failure is None
            &&& o.context == c.register(name, true, parameters)
            &&& o.context.lines == c.lines
            &&& o.context.counter == c.counter
            &&& call_refusal(o.context, name, arity) == if arity == parameters.len() {
                None
            } else {
                Some(Failure::WrongArgumentCount)
            }
        }),
{
}

/// `main` is compiled in place: its body is compiled with no function around
/// it, nothing is emitted before or behind the body's lines, and no function
/// is declared. Where `main` could not be called before, it cannot be called
/// behind it.
pub proof fn lemma_main_is_compiled_in_place(
    parameters: Seq<Seq<char>>,
    body: CodeBlockView,
    c: ContextView,
    arity: nat,
)
    ensures
        ({
            let o = compiled_element(FileElementView::Function("main"@, parameters, body), c);
            &&& o == compiled_code(body, c.with_function(None))
            &&& o.context.functions == c.functions
            &&& !c.functions.contains_key("main"@) ==> call_refusal(o.context, "main"@, arity)
                == Some(Failure::UnknownFunction("main"@))
        }),
{
    lemma_block_follows(body.code, body.code.len(), c.with_function(None));
}

/// Whether one of the first `n` elements declares a function of the target
/// that is named `main`.
pub open spec fn declares_extern_main(elements: Seq<FileElementView>, n: nat) -> bool {
    exists|i: int|
        0 <= i < n && i < elements.len() && (#[trigger] elements[i]) is FunctionExtern
            && elements[i]->FunctionExtern_0 == "main"@
}

/// `main` is never declared, and so can never be called, unless the file
/// declares a function of the target under that name.
pub proof fn lemma_main_is_never_declared(elements: Seq<FileElementView>, n: nat, c: ContextView)
    requires
        n <= elements.len(),
        !c.functions.contains_key("main"@),
        !declares_extern_main(elements, n),
    ensures
        !compiled_elements(elements, n, c).context.functions.contains_key("main"@),
    decreases n,
{
    if n > 0 {
        assert(!declares_extern_main(elements, (n - 1) as nat)) by {
            if declares_extern_main(elements, (n - 1) as nat) {
                let i = choose|i: int|
                    0 <= i < n - 1 && i < elements.len() && (#[trigger] elements[i])
                        is FunctionExtern && elements[i]->FunctionExtern_0 == "main"@;
                assert(elements[i] is FunctionExtern);
            }
        }
        lemma_main_is_never_declared(elements, (n - 1) as nat, c);
        let before = compiled_elements(elements, (n - 1) as nat, c);
        if before.failure is None {
            match elements[n - 1] {
                FileElementView::Function(name, parameters, body) => {
                    if name == "main"@ {
                        lemma_block_follows(
                            body.code,
                            body.code.len(),
                            before.context.with_function(None),
                        );
                    } else {
                        let opened = before.context.emit(line_let(out_cell(name))).emit(
                            line_func(name, parameters),
                        ).with_function(
                            Some(
                                FunctionContextView { name, arguments: parameters.to_set() },
                            ),
                        );
                        lemma_block_follows(body.code, body.code.len(), opened);
                    }
                },
                FileElementView::FunctionExtern(name, _) => {
                    assert(elements[n - 1] is FunctionExtern);
                },
            }
        }
    }
}

/// Two files that spell the same program compile to the same lines, or fail
/// alike: what the front end returns is a function of the view of its input.
pub proof fn lemma_compilation_is_deterministic(a: Seq<FileElement>, b: Seq<FileElement>)
    requires
        element_views(a) == element_views(b),
    ensures
        compiled_file(element_views(a)) == compiled_file(element_views(b)),
{
}


/// Where neither side of a test is the literal zero, the tested value is
/// that of the call of `sub` on the two sides.
pub proof fn lemma_test_is_a_call_of_sub(test: BooleanExpressionView, c: ContextView)
    requires
        !is_zero(test.0),
        !is_zero(test.2),
    ensures
        compiled_test(test, c) == compiled_expression(
            ExpressionView::FunctionCall("sub"@, seq![test.0, test.2]),
            c,
        ),
{
    let args = seq![test.0, test.2];
    if !c.exhausted() {
        let opened = c.with_counter(c.counter + 1);
        if call_refusal(opened, "sub"@, 2) is None {
            let none = compiled_arguments(args, 0, opened);
            let one = compiled_arguments(args, 1, opened);
            let two = compiled_arguments(args, 2, opened);
            let left = compiled_expression(test.0, opened);
            assert(none.failure is None && none.context == opened);
            assert(none.outs =~= Seq::<Seq<char>>::empty());
            assert(one.context == left.context && one.failure == left.failure);
            assert(one.outs =~= seq![left.context.out]);
            if left.failure is None {
                let right = compiled_expression(test.2, left.context);
                assert(two.context == right.context && two.failure == right.failure);
                assert(two.outs =~= seq![left.context.out, right.context.out]);
            }
        }
    }
}

} // verus!
