//! What holds of every assembly by the back end, proved from the functions
//! that say what it does.

use vstd::prelude::*;
use crate::assembler::{
    assembled_call, assembled_line, assembled_opcode, assembled_text, continuation_def_text,
    emitted, landing_text, lemma_parameter_index_stable, parameter_index, parsed_values,
    refused, standard_table, substituted_token, variable_or_ref, Emitter, StateView,
};
use crate::error::AsmError;
use crate::instructions::variables::parameter_name;
use crate::template::TemplateView;
use crate::text::{decimal, lemma_decimal_injective};
use crate::value::{accepts, accepts_all, accepts_any, parsed_value, KindView, ValueView};

verus! {

/// The names of the opcodes of the standard table are eleven different
/// texts.
pub proof fn lemma_opcode_names_differ()
    ensures
        "label"@ != "let"@,
        "label"@ != "if_0"@,
        "label"@ != "set"@,
        "label"@ != "exit"@,
        "label"@ != "inc"@,
        "label"@ != "no_op"@,
        "label"@ != "dec"@,
        "label"@ != "jump"@,
        "label"@ != "jump_var"@,
        "label"@ != "set_lbl"@,
        "let"@ != "if_0"@,
        "let"@ != "set"@,
        "let"@ != "exit"@,
        "let"@ != "inc"@,
        "let"@ != "no_op"@,
        "let"@ != "dec"@,
        "let"@ != "jump"@,
        "let"@ != "jump_var"@,
        "let"@ != "set_lbl"@,
        "if_0"@ != "set"@,
        "if_0"@ != "exit"@,
        "if_0"@ != "inc"@,
        "if_0"@ != "no_op"@,
        "if_0"@ != "dec"@,
        "if_0"@ != "jump"@,
        "if_0"@ != "jump_var"@,
        "if_0"@ != "set_lbl"@,
        "set"@ != "exit"@,
        "set"@ != "inc"@,
        "set"@ != "no_op"@,
        "set"@ != "dec"@,
        "set"@ != "jump"@,
        "set"@ != "jump_var"@,
        "set"@ != "set_lbl"@,
        "exit"@ != "inc"@,
        "exit"@ != "no_op"@,
        "exit"@ != "dec"@,
        "exit"@ != "jump"@,
        "exit"@ != "jump_var"@,
        "exit"@ != "set_lbl"@,
        "inc"@ != "no_op"@,
        "inc"@ != "dec"@,
        "inc"@ != "jump"@,
        "inc"@ != "jump_var"@,
        "inc"@ != "set_lbl"@,
        "no_op"@ != "dec"@,
        "no_op"@ != "jump"@,
        "no_op"@ != "jump_var"@,
        "no_op"@ != "set_lbl"@,
        "dec"@ != "jump"@,
        "dec"@ != "jump_var"@,
        "dec"@ != "set_lbl"@,
        "jump"@ != "jump_var"@,
        "jump"@ != "set_lbl"@,
        "jump_var"@ != "set_lbl"@,
{
    reveal_strlit("label");
    reveal_strlit("let");
    reveal_strlit("if_0");
    reveal_strlit("set");
    reveal_strlit("exit");
    reveal_strlit("inc");
    reveal_strlit("no_op");
    reveal_strlit("dec");
    reveal_strlit("jump");
    reveal_strlit("jump_var");
    reveal_strlit("set_lbl");
    assert("label"@.len() == 5 && "let"@.len() == 3 && "if_0"@.len() == 4);
    assert("set"@.len() == 3 && "exit"@.len() == 4 && "inc"@.len() == 3);
    assert("no_op"@.len() == 5 && "dec"@.len() == 3 && "jump"@.len() == 4);
    assert("jump_var"@.len() == 8 && "set_lbl"@.len() == 7);
    assert("label"@[2] != "let"@[2]);
    assert("let"@[0] != "set"@[0]);
    assert("let"@[0] != "inc"@[0]);
    assert("let"@[0] != "dec"@[0]);
    assert("if_0"@[0] != "exit"@[0]);
    assert("if_0"@[0] != "jump"@[0]);
    assert("set"@[0] != "inc"@[0]);
    assert("set"@[0] != "dec"@[0]);
    assert("exit"@[0] != "jump"@[0]);
    assert("inc"@[0] != "dec"@[0]);
    assert("label"@[0] != "no_op"@[0]);
}

/// The standard table holds the eleven opcodes, each with the kinds of its
/// operands and its emitter.
pub proof fn lemma_standard_table()
    ensures
        standard_table().dom() =~= set![
            "label"@,
            "let"@,
            "if_0"@,
            "set"@,
            "exit"@,
            "inc"@,
            "no_op"@,
            "dec"@,
            "jump"@,
            "jump_var"@,
            "set_lbl"@
        ],
        standard_table()["label"@] == (seq![KindView::Label], Emitter::Label),
        standard_table()["let"@] == (seq![KindView::Variable, KindView::Num], Emitter::Let),
        standard_table()["if_0"@] == (seq![KindView::Variable, KindView::Label], Emitter::IfZero),
        standard_table()["set"@] == (seq![KindView::Variable, variable_or_ref()], Emitter::Store),
        standard_table()["exit"@] == (seq![variable_or_ref()], Emitter::Exit),
        standard_table()["inc"@] == (seq![KindView::Variable], Emitter::Inc),
        standard_table()["no_op"@] == (Seq::<KindView>::empty(), Emitter::NoOp),
        standard_table()["dec"@] == (seq![KindView::Variable], Emitter::Dec),
        standard_table()["jump"@] == (seq![KindView::Label], Emitter::Jump),
        standard_table()["jump_var"@] == (seq![KindView::Variable], Emitter::JumpVar),
        standard_table()["set_lbl"@] == (
            seq![KindView::Variable, KindView::Label],
            Emitter::StoreLabel,
        ),
{
    lemma_opcode_names_differ();
}

/// The kind of a variable or an immediate value takes exactly those two.
pub proof fn lemma_variable_or_ref(value: ValueView)
    ensures
        accepts(variable_or_ref(), value) <==> (value is Variable || value is RefNum),
{
    let options = seq![KindView::Variable, KindView::RefNum];
    assert(accepts_any(options, 0, value) == false);
    assert(accepts_any(options, 1, value) == accepts(options[0], value));
    assert(accepts_any(options, 2, value) == (accepts_any(options, 1, value) || accepts(
        options[1],
        value,
    )));
}

/// The standard table is well formed: operands that are counted and checked
/// against the kinds of an opcode are never refused by its emitter as being
/// of the wrong kind.
pub proof fn lemma_checked_operands_fit(name: Seq<char>, values: Seq<ValueView>, t: TemplateView)
    requires
        standard_table().contains_key(name),
        standard_table()[name].0.len() == values.len(),
        accepts_all(standard_table()[name].0, values, values.len()),
    ensures
        emitted(standard_table()[name].1, values, t).error != Some(AsmError::InvalidArgument),
{
    reveal_with_fuel(accepts_all, 3);
    let kinds = standard_table()[name].0;
    if values.len() >= 1 {
        assert(accepts(kinds[0], values[0]));
        lemma_variable_or_ref(values[0]);
    }
    if values.len() >= 2 {
        assert(accepts(kinds[1], values[1]));
        lemma_variable_or_ref(values[1]);
    }
}

/// `exit` takes a variable or an immediate value: with a plain number or a
/// label as its operand the line is refused as holding an operand of the
/// wrong kind, and nothing changes.
pub proof fn lemma_exit_refuses_numbers_and_labels(
    operand: Seq<char>,
    s: StateView,
    t: TemplateView,
)
    requires
        s.functions == standard_table(),
        parsed_value(operand) is Ok,
        parsed_value(operand)->Ok_0 is Num || parsed_value(operand)->Ok_0 is Label,
    ensures
        assembled_opcode(seq!["exit"@, operand], s, t) == refused(
            s,
            t,
            AsmError::InvalidArgument,
        ),
{
    lemma_standard_table();
    reveal_with_fuel(accepts_all, 2);
    reveal_with_fuel(parsed_values, 2);
    let tokens = seq!["exit"@, operand];
    let operands = tokens.subrange(1, tokens.len() as int);
    assert(operands =~= seq![operand]);
    let value = parsed_value(operand)->Ok_0;
    assert(parsed_values(operands, 0) == Ok::<Seq<ValueView>, AsmError>(Seq::empty()));
    assert(parsed_values(operands, 1) == Ok::<Seq<ValueView>, AsmError>(
        Seq::<ValueView>::empty().push(value),
    ));
    let values = Seq::<ValueView>::empty().push(value);
    lemma_variable_or_ref(value);
    assert(!accepts(variable_or_ref(), value));
    assert(!accepts_all(seq![variable_or_ref()], values, 1));
}

/// Two call sites with different ids have different landing pads and
/// different cells for their addresses.
pub proof fn lemma_call_sites_differ(id1: nat, id2: nat)
    requires
        id1 != id2,
    ensures
        landing_text(id1) != landing_text(id2),
        continuation_def_text(id1) != continuation_def_text(id2),
{
    if landing_text(id1) == landing_text(id2) {
        let front = "'continue_"@;
        let back = ":no_op"@;
        let a = landing_text(id1);
        let b = landing_text(id2);
        assert(a.len() == front.len() + decimal(id1).len() + back.len());
        assert(b.len() == front.len() + decimal(id2).len() + back.len());
        assert(decimal(id1) =~= a.subrange(front.len() as int, a.len() - back.len()));
        assert(decimal(id2) =~= b.subrange(front.len() as int, b.len() - back.len()));
        lemma_decimal_injective(id1, id2);
    }
    if continuation_def_text(id1) == continuation_def_text(id2) {
        let front = "'#global_continue_"@;
        let middle = ":'continue_"@;
        let a = continuation_def_text(id1);
        let b = continuation_def_text(id2);
        assert(a.len() == front.len() + decimal(id1).len() + middle.len() + decimal(id1).len());
        assert(b.len() == front.len() + decimal(id2).len() + middle.len() + decimal(id2).len());
        assert(decimal(id1) =~= a.subrange(
            front.len() as int,
            (front.len() + decimal(id1).len()) as int,
        ));
        assert(decimal(id2) =~= b.subrange(
            front.len() as int,
            (front.len() + decimal(id2).len()) as int,
        ));
        lemma_decimal_injective(id1, id2);
    }
}

/// A call that goes through takes the next call-site id: the counter goes
/// up by one, so no two calls of one assembly share an id.
pub proof fn lemma_call_takes_the_next_id(tokens: Seq<Seq<char>>, s: StateView, t: TemplateView)
    requires
        assembled_call(tokens, s, t).error is None,
    ensures
        assembled_call(tokens, s, t).state == s.with_counter(s.counter + 1),
{
}

/// A line never lowers the counter of call sites.
pub proof fn lemma_counter_never_goes_back(line: Seq<char>, s: StateView, t: TemplateView)
    ensures
        assembled_line(line, s, t).state.counter >= s.counter,
{
}

/// What the back end returns is a function of the two texts that it is
/// given: the same texts give the same machine text, or the same error.
pub proof fn lemma_assembly_is_deterministic(
    source1: Seq<char>,
    skeleton1: Seq<char>,
    source2: Seq<char>,
    skeleton2: Seq<char>,
)
    requires
        source1 == source2,
        skeleton1 == skeleton2,
    ensures
        assembled_text(source1, skeleton1) == assembled_text(source2, skeleton2),
{
}


/// A token refers to none of the first `n` parameters where it is the
/// reference to none of them.
pub proof fn lemma_no_parameter(token: Seq<char>, parameters: Seq<Seq<char>>, n: nat)
    requires
        n <= parameters.len(),
        forall|j: int| 0 <= j < n ==> token != "$"@ + #[trigger] parameters[j],
    ensures
        parameter_index(token, parameters, n) is None,
    decreases n,
{
    if n > 0 {
        lemma_no_parameter(token, parameters, (n - 1) as nat);
    }
}

/// Inside a function, the reference to a parameter is read as the name of
/// that parameter's cell, whatever other parameters its name begins with:
/// `$ab` names the parameter `ab`, never the parameter `a`.
pub proof fn lemma_parameter_becomes_its_cell(
    function: Seq<char>,
    parameters: Seq<Seq<char>>,
    k: int,
)
    requires
        0 <= k < parameters.len(),
        forall|j: int| 0 <= j < k ==> #[trigger] parameters[j] != parameters[k],
    ensures
        substituted_token("$"@ + parameters[k], function, parameters) == parameter_name(
            function,
            (k + 1) as nat,
        ),
{
    let token = "$"@ + parameters[k];
    assert forall|j: int| 0 <= j < k implies token != "$"@ + #[trigger] parameters[j] by {
        if token == "$"@ + parameters[j] {
            let other = "$"@ + parameters[j];
            assert(parameters[k] =~= token.subrange("$"@.len() as int, token.len() as int));
            assert(parameters[j] =~= other.subrange("$"@.len() as int, other.len() as int));
        }
    }
    lemma_no_parameter(token, parameters, k as nat);
    assert(parameter_index(token, parameters, (k + 1) as nat) == Some(k));
    lemma_parameter_index_stable(token, parameters, (k + 1) as nat, parameters.len());
}

/// Inside a function, a token that is the reference to no parameter is read
/// as it stands.
pub proof fn lemma_other_tokens_stay(
    token: Seq<char>,
    function: Seq<char>,
    parameters: Seq<Seq<char>>,
)
    requires
        forall|j: int| 0 <= j < parameters.len() ==> token != "$"@ + #[trigger] parameters[j],
    ensures
        substituted_token(token, function, parameters) == token,
{
    lemma_no_parameter(token, parameters, parameters.len());
}

} // verus!
