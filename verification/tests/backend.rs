use cythanc::assembler::{assemble, assemble_lines, compile, Emitter, FuncState, State};
use cythanc::compiler::compile_file;
use cythanc::ast::{CodeBlock, Expression, FileElement, Instruction};
use cythanc::error::AsmError;
use cythanc::instructions::{
    Condition, DataRef, GenericFunction, Jumps, Label, VariableDef, VariableSet,
};
use cythanc::template::Template;
use cythanc::value::{Value, ValueType};

const SKELETON: &str = "# header VAR_DEF\n---\n# header FUNCTION_DEF\n---\n# header CODE";

fn fresh() -> (State, Template) {
    (State::default(), Template::new(SKELETON))
}

fn section(t: &Template, name: &str) -> Vec<String> {
    t.sections[t.find_section(name).unwrap()].fragments.clone()
}

fn strings(list: &[&str]) -> Vec<String> {
    list.iter().map(|s| s.to_string()).collect()
}

fn run(lines: &[&str]) -> (State, Template) {
    let (mut state, mut template) = fresh();
    for line in lines {
        assert_eq!(compile(line, &mut state, &mut template), Ok(()), "{:?}", line);
    }
    (state, template)
}

fn refused(setup: &[&str], line: &str) -> AsmError {
    let (mut state, mut template) = run(setup);
    compile(line, &mut state, &mut template).unwrap_err()
}

#[test]
fn from_str_classifies_each_token() {
    assert!(matches!(Value::from_str("'start"), Ok(Value::Label(name)) if name == "start"));
    assert!(matches!(Value::from_str("'"), Ok(Value::Label(name)) if name.is_empty()));
    assert!(matches!(Value::from_str("&12"), Ok(Value::RefNum(12))));
    assert!(matches!(Value::from_str("&255"), Ok(Value::RefNum(255))));
    assert!(matches!(Value::from_str("12"), Ok(Value::Num(12))));
    assert!(matches!(Value::from_str("+12"), Ok(Value::Num(12))));
    assert!(matches!(Value::from_str("0"), Ok(Value::Num(0))));
    assert!(matches!(Value::from_str("x1"), Ok(Value::Variable(name)) if name == "x1"));
    assert!(matches!(Value::from_str("256"), Ok(Value::Variable(name)) if name == "256"));
    assert!(matches!(Value::from_str("-1"), Ok(Value::Variable(name)) if name == "-1"));
    assert!(matches!(Value::from_str("$x"), Ok(Value::Variable(name)) if name == "$x"));
    assert!(matches!(Value::from_str(""), Ok(Value::Variable(name)) if name.is_empty()));
}

#[test]
fn from_str_refuses_a_ref_number_that_is_no_byte() {
    for token in ["&", "&x", "&256", "&-1", "&1x", "& 1", "&&1"] {
        assert!(
            matches!(Value::from_str(token), Err(AsmError::BadRefNumber)),
            "{:?}",
            token
        );
    }
    assert_eq!(AsmError::BadRefNumber.message(), "No variable ref allowed");
}

#[test]
fn value_accessors_pick_their_variant() {
    let variable = Value::Variable("v".to_string());
    let label = Value::Label("l".to_string());
    assert_eq!(variable.var().map(|s| s.as_str()), Some("v"));
    assert_eq!(variable.label(), None);
    assert_eq!(variable.num(), None);
    assert_eq!(label.label().map(|s| s.as_str()), Some("l"));
    assert_eq!(label.var(), None);
    assert_eq!(Value::RefNum(3).num(), None);
    assert_eq!(Value::RefNum(3).var(), None);
    assert_eq!(Value::Num(3).num(), Some(3));
    assert_eq!(Value::Num(255).num(), Some(255));
}

#[test]
fn size_zero_stands_for_sixteen() {
    assert_eq!(Value::Num(0).num(), Some(16));
    let (_, template) = run(&["let a 0", "let b 16", "let c 1"]);
    assert_eq!(
        section(&template, "VAR_DEF"),
        strings(&["'var_a:16", "'var_b:16", "'var_c:1"])
    );
}

#[test]
fn check_matches_the_kind_of_a_value() {
    let values = [
        Value::RefNum(1),
        Value::Variable("v".to_string()),
        Value::Num(1),
        Value::Label("l".to_string()),
    ];
    let kinds = [
        ValueType::RefNum,
        ValueType::Variable,
        ValueType::Num,
        ValueType::Label,
    ];
    for (i, kind) in kinds.iter().enumerate() {
        for (j, value) in values.iter().enumerate() {
            assert_eq!(kind.check(value), i == j);
        }
    }
    let either = ValueType::Or(vec![ValueType::Variable, ValueType::RefNum]);
    assert!(either.check(&values[0]));
    assert!(either.check(&values[1]));
    assert!(!either.check(&values[2]));
    assert!(!either.check(&values[3]));
    assert!(!ValueType::Or(vec![]).check(&values[0]));
    let nested = ValueType::Or(vec![ValueType::Or(vec![ValueType::Label]), ValueType::Num]);
    assert!(nested.check(&values[3]));
    assert!(nested.check(&values[2]));
    assert!(!nested.check(&values[1]));
}

#[test]
fn standard_table_holds_every_opcode() {
    let state = State::default();
    let expected: [(&str, usize, Emitter); 11] = [
        ("label", 1, Emitter::Label),
        ("let", 2, Emitter::Let),
        ("if_0", 2, Emitter::IfZero),
        ("set", 2, Emitter::Store),
        ("exit", 1, Emitter::Exit),
        ("inc", 1, Emitter::Inc),
        ("no_op", 0, Emitter::NoOp),
        ("dec", 1, Emitter::Dec),
        ("jump", 1, Emitter::Jump),
        ("jump_var", 1, Emitter::JumpVar),
        ("set_lbl", 2, Emitter::StoreLabel),
    ];
    assert_eq!(state.functions.len(), expected.len());
    for (name, arity, emitter) in expected {
        let entry = state.functions.get(name).unwrap();
        assert_eq!(entry.0.len(), arity, "{}", name);
        assert_eq!(entry.1, emitter, "{}", name);
    }
    assert!(state.functions.get("call").is_none());
    assert!(state.cythan_funcs.is_empty());
    assert!(state.func_state.is_none());
    assert_eq!(state.counter, 0);
}

#[test]
fn count_hands_out_increasing_call_site_ids() {
    let mut state = State::new();
    assert_eq!(state.count(), 1);
    assert_eq!(state.count(), 2);
    assert_eq!(state.counter, 2);
}

#[test]
fn data_ref_is_made_of_a_variable_or_a_ref_number() {
    assert!(matches!(DataRef::try_from(Value::RefNum(4)), Ok(DataRef::RefNum(4))));
    assert!(
        matches!(DataRef::try_from(Value::Variable("v".to_string())), Ok(DataRef::Variable(name)) if name == "v")
    );
    assert!(DataRef::try_from(Value::Num(4)).is_err());
    assert!(DataRef::try_from(Value::Label("l".to_string())).is_err());
    assert_eq!(DataRef::RefNum(11).to_text(), "'#B");
    assert_eq!(DataRef::RefNum(0).to_text(), "'#0");
    assert_eq!(DataRef::Variable("v".to_string()).to_text(), "'var_v");
}

#[test]
fn emitters_write_the_machine_text() {
    let mut t = Template::new(SKELETON);
    Condition::If0("x".to_string(), "l".to_string()).apply(&mut t).unwrap();
    GenericFunction::Exit(DataRef::RefNum(15)).apply(&mut t).unwrap();
    GenericFunction::Exit(DataRef::Variable("x".to_string())).apply(&mut t).unwrap();
    GenericFunction::Inc("x".to_string()).apply(&mut t).unwrap();
    GenericFunction::Dec("x".to_string()).apply(&mut t).unwrap();
    GenericFunction::NoOp.apply(&mut t).unwrap();
    Jumps::JumpLabel("l".to_string()).apply(&mut t).unwrap();
    Jumps::JumpVariable("x".to_string()).apply(&mut t).unwrap();
    Jumps::JumpFuncEnd("f".to_string()).apply(&mut t).unwrap();
    Label::Label("l".to_string()).apply(&mut t).unwrap();
    VariableSet::Number("x".to_string(), 10).apply(&mut t).unwrap();
    VariableSet::Variable("x".to_string(), "y".to_string()).apply(&mut t).unwrap();
    VariableSet::FunctionInput("f".to_string(), 2, DataRef::RefNum(3)).apply(&mut t).unwrap();
    VariableSet::FunctionInput("f".to_string(), 1, DataRef::Variable("y".to_string()))
        .apply(&mut t)
        .unwrap();
    assert_eq!(
        section(&t, "CODE"),
        strings(&[
            "if_0('var_x 'label_l)",
            "exit('#F)",
            "exit('var_x)",
            "inc('var_x)",
            "dec('var_x)",
            "no_op",
            "jump('label_l)",
            "'var_x ~+3 ~+2 0 earasable",
            "'f_cb ~+3 ~+2 0 earasable",
            "'label_l:no_op",
            "'#A 'var_x",
            "'var_y 'var_x",
            "'#3 'var_f_in2\n",
            "'var_y 'var_f_in1\n"
        ])
    );
    VariableDef::NumberVariable("x".to_string(), 16).apply(&mut t).unwrap();
    VariableDef::NumberVariable("y".to_string(), 200).apply(&mut t).unwrap();
    VariableDef::FunctionVariable("f".to_string(), 3).apply(&mut t).unwrap();
    assert_eq!(section(&t, "VAR_DEF"), strings(&["'var_x:16", "'var_y:200"]));
    assert_eq!(section(&t, "FUNCTION_DEF"), strings(&["'var_f_in3:0"]));
}

#[test]
fn a_value_above_fifteen_has_no_hexadecimal_digit() {
    let mut t = Template::new(SKELETON);
    assert_eq!(
        VariableSet::Number("x".to_string(), 16).apply(&mut t),
        Err(AsmError::ValueOutOfRange)
    );
    assert_eq!(
        GenericFunction::Exit(DataRef::RefNum(255)).apply(&mut t),
        Err(AsmError::ValueOutOfRange)
    );
    assert_eq!(
        VariableSet::FunctionInput("f".to_string(), 1, DataRef::RefNum(16)).apply(&mut t),
        Err(AsmError::ValueOutOfRange)
    );
    assert!(section(&t, "CODE").is_empty());
    assert_eq!(refused(&[], "set x &16"), AsmError::ValueOutOfRange);
    assert_eq!(refused(&[], "exit &16"), AsmError::ValueOutOfRange);
}

#[test]
fn label_address_is_bound_once() {
    let mut t = Template::new(SKELETON);
    VariableSet::Label("a".to_string(), "l".to_string()).apply(&mut t).unwrap();
    VariableSet::Label("b".to_string(), "l".to_string()).apply(&mut t).unwrap();
    VariableSet::Label("a".to_string(), "m".to_string()).apply(&mut t).unwrap();
    assert_eq!(
        section(&t, "VAR_DEF"),
        strings(&["'#var_label_l:'label_l\n", "'#var_label_m:'label_m\n"])
    );
    assert_eq!(
        section(&t, "CODE"),
        strings(&[
            "'#var_label_l 'var_a\n",
            "'#var_label_l 'var_b\n",
            "'#var_label_m 'var_a\n"
        ])
    );
    let (_, t) = run(&["set_lbl a 'l", "set_lbl b 'l"]);
    assert_eq!(section(&t, "VAR_DEF"), strings(&["'#var_label_l:'label_l\n"]));
}

#[test]
fn emitter_into_an_undeclared_section_fails() {
    let mut t = Template::new("# header CODE");
    assert_eq!(
        VariableDef::NumberVariable("x".to_string(), 1).apply(&mut t),
        Err(AsmError::UndeclaredSection)
    );
    assert_eq!(
        VariableSet::Label("a".to_string(), "l".to_string()).apply(&mut t),
        Err(AsmError::UndeclaredSection)
    );
    assert_eq!(GenericFunction::NoOp.apply(&mut t), Ok(()));
    let mut t = Template::new("# header VAR_DEF");
    assert_eq!(
        VariableSet::Label("a".to_string(), "l".to_string()).apply(&mut t),
        Err(AsmError::UndeclaredSection)
    );
    assert_eq!(section(&t, "VAR_DEF"), strings(&["'#var_label_l:'label_l\n"]));
}

#[test]
fn table_opcodes_emit_into_their_sections() {
    let (_, t) = run(&[
        "let x 4",
        "label 'top",
        "if_0 x 'top",
        "set x y",
        "set x &9",
        "exit x",
        "exit &2",
        "inc x",
        "dec x",
        "no_op",
        "jump 'top",
        "jump_var x",
    ]);
    assert_eq!(section(&t, "VAR_DEF"), strings(&["'var_x:4"]));
    assert_eq!(
        section(&t, "CODE"),
        strings(&[
            "'label_top:no_op",
            "if_0('var_x 'label_top)",
            "'var_y 'var_x",
            "'#9 'var_x",
            "exit('var_x)",
            "exit('#2)",
            "inc('var_x)",
            "dec('var_x)",
            "no_op",
            "jump('label_top)",
            "'var_x ~+3 ~+2 0 earasable"
        ])
    );
}

#[test]
fn spaces_between_tokens_do_not_matter() {
    let (_, t) = run(&["  set   x    &1  "]);
    assert_eq!(section(&t, "CODE"), strings(&["'#1 'var_x"]));
}

#[test]
fn line_without_tokens_is_refused() {
    assert_eq!(refused(&[], ""), AsmError::MissingOpcode);
    assert_eq!(refused(&[], "   "), AsmError::MissingOpcode);
    assert_eq!(refused(&[], "call"), AsmError::MissingOpcode);
    assert_eq!(refused(&[], "func"), AsmError::MissingOpcode);
    assert_eq!(AsmError::MissingOpcode.message(), "Can't find function name");
}

#[test]
fn unknown_opcode_is_refused() {
    assert_eq!(refused(&[], "sub a b"), AsmError::UnknownOpcode);
    assert_eq!(refused(&[], "LET x 0"), AsmError::UnknownOpcode);
    assert_eq!(AsmError::UnknownOpcode.message(), "Invalid function");
    assert_eq!(refused(&[], "sub &x"), AsmError::BadRefNumber);
}

#[test]
fn wrong_number_of_operands_is_refused() {
    assert_eq!(refused(&[], "let x"), AsmError::WrongArgumentCount);
    assert_eq!(refused(&[], "no_op x"), AsmError::WrongArgumentCount);
    assert_eq!(refused(&[], "inc"), AsmError::WrongArgumentCount);
    assert_eq!(refused(&[], "set a b c"), AsmError::WrongArgumentCount);
    assert_eq!(AsmError::WrongArgumentCount.message(), "Invalid number of args");
}

#[test]
fn operand_of_the_wrong_kind_is_refused() {
    assert_eq!(refused(&[], "exit 3"), AsmError::InvalidArgument);
    assert_eq!(refused(&[], "exit 'l"), AsmError::InvalidArgument);
    assert_eq!(refused(&[], "label x"), AsmError::InvalidArgument);
    assert_eq!(refused(&[], "let x &1"), AsmError::InvalidArgument);
    assert_eq!(refused(&[], "let 1 1"), AsmError::InvalidArgument);
    assert_eq!(refused(&[], "set x 1"), AsmError::InvalidArgument);
    assert_eq!(refused(&[], "set x 'l"), AsmError::InvalidArgument);
    assert_eq!(refused(&[], "set &1 x"), AsmError::InvalidArgument);
    assert_eq!(refused(&[], "if_0 x y"), AsmError::InvalidArgument);
    assert_eq!(refused(&[], "jump x"), AsmError::InvalidArgument);
    assert_eq!(refused(&[], "jump_var 'l"), AsmError::InvalidArgument);
    assert_eq!(refused(&[], "set_lbl x y"), AsmError::InvalidArgument);
    assert_eq!(AsmError::InvalidArgument.message(), "Invalid argument");
}

#[test]
fn func_opens_a_function_and_defines_its_cells() {
    let (state, t) = run(&["func add a b", "inc $a", "set $b $a", "ret"]);
    let open = state.func_state.as_ref().unwrap();
    assert_eq!(open.name, "add");
    assert_eq!(open.arguments, strings(&["a", "b"]));
    assert!(state.cythan_funcs.is_empty());
    assert_eq!(t.current_code_section, "FUNCTION_DEF");
    assert!(section(&t, "VAR_DEF").is_empty());
    assert_eq!(
        section(&t, "FUNCTION_DEF"),
        strings(&[
            "'add_cb:16",
            "'fnstart_add:no_op\n",
            "'var_add_in1:0",
            "'var_add_in2:0",
            "inc('var_add_in1)",
            "'var_add_in1 'var_add_in2",
            "'add_cb ~+3 ~+2 0 earasable"
        ])
    );
    assert!(section(&t, "CODE").is_empty());
}

#[test]
fn end_func_closes_the_function() {
    let (state, t) = run(&["func add a b", "end_func", "inc x"]);
    assert!(state.func_state.is_none());
    assert_eq!(state.cythan_funcs.get("add"), Some(&2));
    assert_eq!(t.current_code_section, "CODE");
    assert_eq!(
        section(&t, "FUNCTION_DEF"),
        strings(&[
            "'add_cb:16",
            "'fnstart_add:no_op\n",
            "'var_add_in1:0",
            "'var_add_in2:0",
            "'add_cb ~+3 ~+2 0 earasable"
        ])
    );
    assert_eq!(section(&t, "CODE"), strings(&["inc('var_x)"]));
}

#[test]
fn a_parameter_reference_is_a_whole_token() {
    let (_, t) = run(&["func f a ab", "inc $ab", "set $ab $a", "inc $abc", "inc $"]);
    assert_eq!(
        section(&t, "FUNCTION_DEF")[4..].to_vec(),
        strings(&[
            "inc('var_f_in2)",
            "'var_f_in1 'var_f_in2",
            "inc('var_$abc)",
            "inc('var_$)"
        ])
    );
    let (_, t) = run(&["func f ab a", "set $ab $a"]);
    assert_eq!(
        section(&t, "FUNCTION_DEF")[4..].to_vec(),
        strings(&["'var_f_in2 'var_f_in1"])
    );
}

#[test]
fn a_parameter_reference_inside_a_token_is_left_alone() {
    let (_, t) = run(&["func f a", "jump '$a", "inc x$a", "inc $a$a", "inc a"]);
    assert_eq!(
        section(&t, "FUNCTION_DEF")[3..].to_vec(),
        strings(&[
            "jump('label_$a)",
            "inc('var_x$a)",
            "inc('var_$a$a)",
            "inc('var_a)"
        ])
    );
    let (mut state, mut t) = run(&["func f a"]);
    assert_eq!(
        compile("set $a &$a", &mut state, &mut t),
        Err(AsmError::BadRefNumber)
    );
}

#[test]
fn a_parameter_declared_twice_names_its_first_cell() {
    let (_, t) = run(&["func f a a", "inc $a"]);
    assert_eq!(
        section(&t, "FUNCTION_DEF")[4..].to_vec(),
        strings(&["inc('var_f_in1)"])
    );
}

#[test]
fn a_parameter_reference_as_the_opcode_is_read_as_a_cell() {
    let (mut state, mut t) = run(&["func ret x"]);
    assert_eq!(
        compile("$x", &mut state, &mut t),
        Err(AsmError::UnknownOpcode)
    );
    assert_eq!(compile("ret", &mut state, &mut t), Ok(()));
}

#[test]
fn the_front_end_and_the_back_end_agree_on_parameters() {
    let program = vec![FileElement::Function(
        "f".to_string(),
        vec!["a".to_string(), "ab".to_string()],
        CodeBlock {
            code: vec![Instruction::Assign(
                "r".to_string(),
                Box::new(Expression::Variable("ab".to_string())),
            )],
        },
    )];
    let lines = compile_file(&program).unwrap();
    assert_eq!(lines[2], "set r $ab");
    let text = assemble_lines(&lines, "# header FUNCTION_DEF\n# header VAR_DEF").unwrap();
    assert!(text.contains("'var_f_in2 'var_r"));
    assert!(!text.contains("f_in1b"));
}

#[test]
fn parameters_are_not_replaced_outside_of_a_function() {
    let (_, t) = run(&["func f a", "end_func", "inc $a"]);
    assert_eq!(section(&t, "CODE"), strings(&["inc('var_$a)"]));
}

#[test]
fn ret_and_end_func_outside_of_a_function_are_refused() {
    assert_eq!(refused(&[], "ret"), AsmError::OutsideFunction);
    assert_eq!(refused(&[], "end_func"), AsmError::OutsideFunction);
    assert_eq!(
        refused(&["func f", "end_func"], "ret"),
        AsmError::OutsideFunction
    );
    assert_eq!(
        AsmError::OutsideFunction.message(),
        "Can't use ret or end_func outside of a function"
    );
}

#[test]
fn call_stores_the_arguments_and_makes_a_call_site() {
    let (state, t) = run(&[
        "func add a b",
        "end_func",
        "call add x &7",
        "call add &0 y",
    ]);
    assert_eq!(state.counter, 2);
    assert_eq!(
        section(&t, "VAR_DEF"),
        strings(&[
            "'#global_continue_1:'continue_1",
            "'#global_continue_2:'continue_2"
        ])
    );
    assert_eq!(
        section(&t, "CODE"),
        strings(&[
            "'var_x 'var_add_in1\n",
            "'#7 'var_add_in2\n",
            "'#global_continue_1 'add_cb",
            "jump('fnstart_add)",
            "'continue_1:no_op",
            "'#0 'var_add_in1\n",
            "'var_y 'var_add_in2\n",
            "'#global_continue_2 'add_cb",
            "jump('fnstart_add)",
            "'continue_2:no_op"
        ])
    );
}

#[test]
fn call_of_an_unknown_function_is_refused() {
    assert_eq!(refused(&[], "call f"), AsmError::UnknownFunction);
    assert_eq!(refused(&["func f"], "call f"), AsmError::UnknownFunction);
    assert_eq!(
        refused(&["func f", "end_func"], "call F"),
        AsmError::UnknownFunction
    );
    assert_eq!(refused(&[], "call main"), AsmError::UnknownFunction);
    assert_eq!(
        AsmError::UnknownFunction.message(),
        "No function declared with this name (Check the case)"
    );
}

#[test]
fn call_with_the_wrong_number_of_arguments_is_refused() {
    let setup = ["func f a b", "end_func"];
    assert_eq!(refused(&setup, "call f x"), AsmError::WrongArgumentCount);
    assert_eq!(refused(&setup, "call f"), AsmError::WrongArgumentCount);
    assert_eq!(refused(&setup, "call f x y z"), AsmError::WrongArgumentCount);
    assert_eq!(refused(&setup, "call f x &y"), AsmError::BadRefNumber);
}

#[test]
fn call_with_a_number_or_a_label_is_refused_after_the_arguments_before_it() {
    let (mut state, mut t) = run(&["func f a b", "end_func"]);
    assert_eq!(
        compile("call f x 3", &mut state, &mut t),
        Err(AsmError::NumberArgument)
    );
    assert_eq!(section(&t, "CODE"), strings(&["'var_x 'var_f_in1\n"]));
    assert_eq!(state.counter, 0);
    assert_eq!(
        compile("call f 'l x", &mut state, &mut t),
        Err(AsmError::LabelArgument)
    );
    assert_eq!(section(&t, "CODE"), strings(&["'var_x 'var_f_in1\n"]));
    assert_eq!(
        compile("call f x &16", &mut state, &mut t),
        Err(AsmError::ValueOutOfRange)
    );
    assert_eq!(
        AsmError::NumberArgument.message(),
        "Can't pass a `num` as function argument expecyed `&num` or `var`"
    );
    assert_eq!(
        AsmError::LabelArgument.message(),
        "Can't pass a `'label` as function argument expecyed `&num` or `var`"
    );
}

#[test]
fn call_at_the_limit_of_the_counter_is_refused() {
    let (mut state, mut t) = run(&["func f", "end_func"]);
    state.counter = usize::MAX;
    assert_eq!(
        compile("call f", &mut state, &mut t),
        Err(AsmError::CounterExhausted)
    );
    assert_eq!(state.counter, usize::MAX);
    assert_eq!(AsmError::CounterExhausted.message(), "Too many calls");
}

#[test]
fn function_with_too_many_parameters_is_refused() {
    let many: Vec<String> = (0..256).map(|i| format!("p{}", i)).collect();
    let line = format!("func f {}", many.join(" "));
    let (mut state, mut t) = fresh();
    assert_eq!(
        compile(&line, &mut state, &mut t),
        Err(AsmError::TooManyParameters)
    );
    assert!(state.func_state.is_none());
    assert!(section(&t, "FUNCTION_DEF").is_empty());
    assert_eq!(t.current_code_section, "CODE");
    let line = format!("func f {}", many[..255].join(" "));
    assert_eq!(compile(&line, &mut state, &mut t), Ok(()));
    assert_eq!(section(&t, "FUNCTION_DEF").len(), 257);
    assert_eq!(section(&t, "FUNCTION_DEF")[256], "'var_f_in255:0");
    assert!(section(&t, "VAR_DEF").is_empty());
    assert_eq!(
        AsmError::TooManyParameters.message(),
        "Can't declare more than 255 parameters"
    );
}

#[test]
fn assemble_builds_the_text() {
    let source = "# a comment\nlet x 0\n\n  set x &3  \r\n\tinc x\nexit x\n";
    let skeleton = "cells:\r\n# header VAR_DEF\r\ncode:\r\n# header CODE\r\n";
    assert_eq!(
        assemble(source, skeleton),
        Ok("cells:\n'var_x:16\ncode:\n'#3 'var_x\ninc('var_x)\nexit('var_x)\n".to_string())
    );
}

#[test]
fn assemble_stops_at_the_first_refused_line() {
    assert_eq!(
        assemble("inc x\nexit 3\nbogus", SKELETON),
        Err(AsmError::InvalidArgument)
    );
    assert_eq!(assemble("bogus\nexit 3", SKELETON), Err(AsmError::UnknownOpcode));
    assert_eq!(
        assemble("inc x", "# header VAR_DEF"),
        Err(AsmError::UndeclaredSection)
    );
    assert_eq!(assemble("", "# header VAR_DEF"), Ok("".to_string()));
    assert_eq!(assemble("#inc x\n   \n", "a\nb"), Ok("a\nb".to_string()));
}

#[test]
fn assembling_twice_gives_the_same_text() {
    let source = "func f a\ninc $a\nend_func\ncall f &1\ncall f x\nset_lbl x 'l\nlabel 'l";
    let first = assemble(source, SKELETON).unwrap();
    let second = assemble(source, SKELETON).unwrap();
    assert_eq!(first, second);
    assert_eq!(
        first,
        "'#global_continue_1:'continue_1\n\
         '#global_continue_2:'continue_2\n'#var_label_l:'label_l\n\n---\n\
         'f_cb:16\n'fnstart_f:no_op\n\n'var_f_in1:0\ninc('var_f_in1)\n\
         'f_cb ~+3 ~+2 0 earasable\n---\n\
         '#1 'var_f_in1\n\n'#global_continue_1 'f_cb\njump('fnstart_f)\n'continue_1:no_op\n\
         'var_x 'var_f_in1\n\n'#global_continue_2 'f_cb\njump('fnstart_f)\n'continue_2:no_op\n\
         '#var_label_l 'var_x\n\n'label_l:no_op"
    );
}

#[test]
fn front_end_output_goes_through_the_back_end() {
    let program = vec![
        FileElement::Function(
            "id".to_string(),
            vec!["x".to_string()],
            CodeBlock {
                code: vec![Instruction::Return(Some(Expression::Variable("x".to_string())))],
            },
        ),
        FileElement::Function(
            "main".to_string(),
            vec![],
            CodeBlock {
                code: vec![Instruction::Assign(
                    "a".to_string(),
                    Box::new(Expression::FunctionCall(
                        "id".to_string(),
                        vec![Expression::Number(5)],
                    )),
                )],
            },
        ),
    ];
    let lines = compile_file(&program).unwrap();
    let text = assemble(&lines.join("\n"), SKELETON).unwrap();
    assert_eq!(
        text,
        "'var_id_out:16\n'#global_continue_1:'continue_1\n\
         'var_TMP1:16\n---\n'id_cb:16\n'fnstart_id:no_op\n\n'var_id_in1:0\n\
         'var_id_in1 'var_id_out\n\
         'id_cb ~+3 ~+2 0 earasable\n'id_cb ~+3 ~+2 0 earasable\n---\n\
         '#5 'var_id_in1\n\n'#global_continue_1 'id_cb\njump('fnstart_id)\n\
         'continue_1:no_op\n'var_id_out 'var_TMP1\n'var_TMP1 'var_a"
    );
}

#[test]
fn more_than_255_arguments_are_refused_in_any_state() {
    let many: Vec<String> = (0..256).map(|i| format!("p{}", i)).collect();
    let (mut state, mut t) = fresh();
    state.cythan_funcs.insert("f".to_string(), 256);
    let line = format!("call f {}", many.join(" "));
    assert_eq!(
        compile(&line, &mut state, &mut t),
        Err(AsmError::TooManyParameters)
    );
    assert!(section(&t, "CODE").is_empty());
    state.func_state = Some(FuncState {
        name: "g".to_string(),
        arguments: many,
    });
    assert_eq!(
        compile("end_func", &mut state, &mut t),
        Err(AsmError::TooManyParameters)
    );
    assert!(state.func_state.is_some());
    assert!(state.cythan_funcs.get("g").is_none());
}

#[test]
fn assemble_lines_takes_the_lines_of_the_front_end() {
    let lines: Vec<String> = ["let a 0", "  ", "# note", "set a &1", "exit a"]
        .iter()
        .map(|s| s.to_string())
        .collect();
    assert_eq!(
        assemble_lines(&lines, "# header VAR_DEF\n# header CODE"),
        Ok("'var_a:16\n'#1 'var_a\nexit('var_a)".to_string())
    );
    assert_eq!(
        assemble_lines(&lines, "# header VAR_DEF\n# header CODE"),
        assemble(&lines.join("\n"), "# header VAR_DEF\n# header CODE")
    );
    assert_eq!(assemble_lines(&vec![], "x"), Ok("x".to_string()));
    assert_eq!(
        assemble_lines(&vec!["ret".to_string()], SKELETON),
        Err(AsmError::OutsideFunction)
    );
}

#[test]
fn a_line_with_a_line_feed_inside_is_one_line() {
    let (mut state, mut t) = fresh();
    assert_eq!(
        compile("inc x\ninc y", &mut state, &mut t),
        Err(AsmError::WrongArgumentCount)
    );
    assert_eq!(
        compile("inc x\ny", &mut state, &mut t),
        Ok(())
    );
    assert_eq!(section(&t, "CODE"), strings(&["inc('var_x\ny)"]));
}

#[test]
fn exit_with_a_bare_number_is_a_type_error() {
    let (mut state, mut t) = fresh();
    assert_eq!(
        compile("exit 3", &mut state, &mut t),
        Err(AsmError::InvalidArgument)
    );
    assert_eq!(t, Template::new(SKELETON));
    assert_eq!(state.counter, 0);
    assert_eq!(compile("exit &3", &mut state, &mut t), Ok(()));
    assert_eq!(section(&t, "CODE"), strings(&["exit('#3)"]));
}
