use nefor_mag::authored::{BlockItem, Expr, Module, ModuleForm, NamePath, Type};
use nefor_mag::diagnostic::SourceSnapshot;
use nefor_mag::error::MagError;
use nefor_mag::session::compile_text;
use nefor_mag::tokens::{read_pieces, Sort};

fn parse(text: &str) -> Result<Module, MagError> {
    compile_text(&SourceSnapshot::named("surface.mag", text))
}

fn named(path: &NamePath, text: &str) -> bool {
    path.text() == text
}

fn type_named(ty: &Type, text: &str) -> bool {
    matches!(ty, Type::Name(path) if named(path, text))
}

fn let_value<'a>(form: &'a ModuleForm, what: &str) -> &'a Expr {
    match form {
        ModuleForm::Block(BlockItem::Let { value, .. }) => value,
        _ => panic!("{what}"),
    }
}

fn annotated<'a>(form: &'a ModuleForm, what: &str) -> (&'a Type, &'a Expr) {
    match let_value(form, what) {
        Expr::Annotate { target, value } => (target, value),
        _ => panic!("{what}"),
    }
}

fn diagnostic(text: &str) -> nefor_mag::diagnostic::SyntaxDiagnostic {
    match parse(text) {
        Err(MagError::Syntax(diagnostic)) => *diagnostic,
        _ => panic!("expected syntax diagnostic for {text:?}"),
    }
}

#[test]
fn lowers_imports_types_calls_and_constructors() {
    let module = parse(
        r#"
            import nefor.graph.{edge, identity as id}
            import support.{}
            import nefor.node.{}
            type Score { label: String, accepted: Bool }
            type Decision = Accepted(Score) | Rejected {score: Score, reason: String}
            let score: Score = Score { label: "ok", accepted: true }
            let decision: Decision = Decision.Accepted(score)
            let result = edge(id("x"), nefor.node.output("y"))
        "#,
    )
    .unwrap();
    assert!(
        matches!(&module.forms[0], ModuleForm::Require(value) if value.module == "nefor.graph")
    );
    assert!(matches!(&module.forms[1], ModuleForm::Require(value) if value.module == "support"));
    assert!(module
        .forms
        .iter()
        .any(|form| matches!(form, ModuleForm::Require(value) if value.module == "nefor.node")));
    assert!(module
        .forms
        .iter()
        .any(|form| matches!(form, ModuleForm::Type(value) if value.name == "Decision.Rejected")));
    let value = let_value(module.forms.last().unwrap(), "let");
    let Expr::Call { callee, .. } = value else {
        panic!("call")
    };
    assert!(matches!(callee.as_ref(), Expr::Name(name) if named(name, "nefor.graph.edge")));
}

#[test]
fn generic_constructor_uses_expected_owner_arguments() {
    let module = parse(
        "type Option<T> = Some(T) | None()\nlet value: Option<Int> = Option<Int>.Some(1)\n",
    )
    .unwrap();
    let (_, value) = annotated(module.forms.last().unwrap(), "constructor binding");
    let Expr::Construct { owner, payload, .. } = value else {
        panic!("constructor")
    };
    assert!(
        matches!(owner, Type::Apply { constructor, arguments }
            if named(constructor, "Option")
                && arguments.len() == 1
                && type_named(&arguments[0], "Int"))
    );
    assert!(matches!(payload.as_ref(), Expr::Int(1)));
}

#[test]
fn preserves_nary_calls_and_lowers_infix_to_binary_calls() {
    let module = parse("fixity right 5 ++\nlet x = f(a, b, c)\nlet y = a ++ b ++ c\n").unwrap();
    let Expr::Call { args, .. } = let_value(&module.forms[0], "nary call") else {
        panic!("nary call")
    };
    assert_eq!(args.len(), 3);

    let Expr::Call { callee, args, .. } = let_value(&module.forms[1], "infix") else {
        panic!("infix")
    };
    assert!(matches!(callee.as_ref(), Expr::Name(name) if named(name, "++")));
    assert!(
        matches!(args.as_slice(), [Expr::Name(name), Expr::Call { .. }] if named(name, "a"))
    );
    let Expr::Call {
        callee: nested_callee,
        args: nested_args,
        ..
    } = &args[1]
    else {
        panic!("right-associated infix call")
    };
    assert!(matches!(nested_callee.as_ref(), Expr::Name(name) if named(name, "++")));
    assert!(
        matches!(nested_args.as_slice(), [Expr::Name(left), Expr::Name(right)]
            if named(left, "b") && named(right, "c"))
    );
}

#[test]
fn complete_let_type_supplies_lambda_annotations() {
    let module = parse("let f: fn(Int, String) -> Bool = |number, text| => true\n").unwrap();
    let (_, value) = annotated(&module.forms[0], "ascribed let");
    let Expr::Function(function) = value else {
        panic!("function")
    };
    assert!(type_named(&function.params[0].ty, "Int"));
    assert!(type_named(&function.result, "Bool"));
}

#[test]
fn inline_ascription_supplies_lambda_annotations() {
    let module = parse("let f = (|value| => value): (Int) -> Int\n").unwrap();
    let Expr::Ascribe { value, .. } = let_value(&module.forms[0], "ascribed lambda") else {
        panic!("ascribed lambda")
    };
    assert!(
        matches!(value.as_ref(), Expr::Function(function)
            if type_named(&function.params[0].ty, "Int"))
    );
}

#[test]
fn tuple_argument_and_nary_function_types_remain_distinct() {
    let module = parse(
        "let tupled: (Int, String) -> Bool = |pair| => true\nlet nary: fn(Int, String) -> Bool = |number, text| => true\n",
    )
    .unwrap();
    let (tupled, _) = annotated(&module.forms[0], "tuple function");
    let (nary, _) = annotated(&module.forms[1], "nary function");
    assert_ne!(format!("{tupled:?}"), format!("{nary:?}"));
    assert!(
        matches!(tupled, Type::Function { params, .. }
            if matches!(params.as_slice(), [Type::Product(_)]))
    );
    assert!(matches!(nary, Type::Function { params, .. } if params.len() == 2));
}

#[test]
fn tuple_list_and_grouping_have_distinct_authored_shapes() {
    let module =
        parse("let unit = ()\nlet grouped = (1)\nlet tuple = (1,)\nlet list = [1]\n").unwrap();
    let values = module
        .forms
        .iter()
        .map(|form| let_value(form, "let"))
        .collect::<Vec<_>>();
    assert!(matches!(values[0], Expr::Unit));
    assert!(matches!(values[1], Expr::Int(1)));
    assert!(
        matches!(values[2], Expr::Ascribe { value, .. }
            if matches!(value.as_ref(), Expr::Vector(items) if items.len() == 1))
    );
    assert!(matches!(values[3], Expr::Vector(items) if items.len() == 1));
}

#[test]
fn legacy_forms_semicolons_and_leading_operator_continuations_are_rejected() {
    assert!(parse("require \"support\"\n").is_err());
    assert!(parse("let x = 1; let y = 2\n").is_err());
    assert!(parse("let x = 1\n+ 2\n").is_err());
    assert!(parse("artifact(type-tag<String>())\n").is_err());
}

#[test]
fn parenthesized_symbolic_bindings_and_fixities_use_maximal_munch() {
    let module = parse(
        "infixr 4 (>>>), (->)\nlet (>>>): fn(Int, Int) -> Int = |left, right| => left\nlet value = 1 >>> 2\n",
    )
    .unwrap();
    assert!(module
        .forms
        .iter()
        .any(|form| matches!(form, ModuleForm::Block(BlockItem::Let { name, .. }) if name == ">>>")));
}

#[test]
fn arrow_is_type_syntax_and_can_be_an_imported_term_operator() {
    let module =
        parse("import operators.{`->`}\ninfixr 4 (->)\nlet value: Result = left -> right\n")
            .unwrap();
    let (_, value) = annotated(module.forms.last().unwrap(), "arrow infix binding");
    let Expr::Call { callee, args, .. } = value else {
        panic!("arrow infix application")
    };
    assert!(matches!(callee.as_ref(), Expr::Name(name) if named(name, "operators.->")));
    assert_eq!(args.len(), 2);
    assert!(parse("let f: Int -> Int = |value| => value\n").is_ok());
    assert!(parse("let arrow = (->)\n").is_ok());
}

#[test]
fn lexical_binders_win_over_import_aliases_and_named_calls_do_not_erase_labels() {
    let module = parse(
        "import support.{value as imported}\nlet f: Int -> Int = |imported| => imported\n",
    )
    .unwrap();
    let (_, value) = annotated(module.forms.last().unwrap(), "function");
    let Expr::Function(function) = value else {
        panic!("function")
    };
    assert!(
        matches!(&function.body[0], BlockItem::Expr(Expr::Name(name)) if named(name, "imported"))
    );
    assert!(parse("let x = f(right: 1, left: 2)\n").is_err());
}

#[test]
fn unannotated_lambda_has_located_diagnostic() {
    let diagnostic = diagnostic("let f = |x| => x\n");
    assert!(diagnostic
        .message
        .contains("complete expected function type"));
    assert_eq!(diagnostic.location.start.line, 1);
    assert_eq!(diagnostic.location.start.column, 9);
}

#[test]
fn conflicting_same_precedence_fixities_are_rejected() {
    let diagnostic = diagnostic("infixl 5 +\ninfixr 5 *\nlet x = a + b * c\n");
    assert_eq!(diagnostic.code, "MAG2010");
    assert!(diagnostic.related.is_some());
}

#[test]
fn lexer_keeps_symbolic_operator_boundaries_for_spacing_diagnostics() {
    let text: Vec<char> = "1+2 3 + 4".chars().collect();
    let tokens = read_pieces(&text).unwrap();
    let operators = tokens
        .iter()
        .filter(|token| matches!(&token.sort, Sort::Operator(name) if name == "+"))
        .map(|token| (token.from, token.to))
        .collect::<Vec<_>>();
    assert_eq!(operators, [(1, 2), (6, 7)]);
}

#[test]
fn lexes_raw_strings_signed_numbers_comments_and_newlines() {
    let module =
        parse("// comment\nlet a = -12\nlet b = -2.5\nlet s = \"\"\"x\\ny\"\"\"\n").unwrap();
    assert_eq!(module.forms.len(), 3);
    assert!(matches!(let_value(&module.forms[0], "let"), Expr::Int(-12)));
    assert!(
        matches!(let_value(&module.forms[1], "let"), Expr::Float(notation)
            if notation.parse::<f64>() == Ok(-2.5))
    );
    assert!(matches!(let_value(&module.forms[2], "let"), Expr::Str(text) if text == "x\\ny"));
}

#[test]
fn symbolic_infix_operators_require_whitespace_on_both_sides() {
    for (source, side, column) in [
        ("let value = 1- 2\n", "before", 14),
        ("let value = 1 -2\n", "after", 15),
        ("let value = 1-2\n", "before and after", 14),
        ("let value = (1)+ 2\n", "before", 16),
        ("let value = 1 +(2)\n", "after", 15),
    ] {
        let diagnostic = diagnostic(source);
        assert_eq!(diagnostic.code, "MAG2012");
        assert!(diagnostic.message.contains(side), "{}", diagnostic.message);
        assert!(diagnostic.message.contains("spaces on both sides"));
        assert_eq!(diagnostic.location.start.column, column);
        assert_eq!(diagnostic.span.end - diagnostic.span.start, 1);
    }
}

#[test]
fn infix_spacing_accepts_horizontal_and_trailing_operator_newline_separation() {
    assert!(parse("let value = 1 - -2\n").is_ok());
    assert!(parse("let value = f(-2)\n").is_ok());
    assert!(parse("let value = 1 +\n  2\n").is_ok());
    assert!(parse("let value = 1 + // right operand follows the comment\n  2\n").is_ok());
    assert!(parse("let value = 1\n  + 2\n").is_err());
    assert!(parse("let value = 1 +// comment\n  2\n").is_err());
}

#[test]
fn authored_name_paths_preserve_quoted_punctuation_as_one_segment() {
    let module = parse("let value = tools.deep.`call.with.dots`<String>(\"ok\")\n").unwrap();
    let Expr::Call {
        callee, type_args, ..
    } = let_value(&module.forms[0], "let")
    else {
        panic!("call")
    };
    let Expr::Name(path) = callee.as_ref() else {
        panic!("name path")
    };
    assert_eq!(path.segments, ["tools", "deep", "call.with.dots"]);
    assert_eq!(type_args.as_ref().map(Vec::len), Some(1));
}

#[test]
fn alphabetic_infix_and_symbolic_prefix_forms_keep_their_meaning() {
    assert!(parse(
        "infixl 5 add\nlet add: fn(Int, Int) -> Int = |left, right| => left\nlet value = 1 add 2\n",
    )
    .is_ok());
    assert!(parse("let value = (+)(1, 2)\n").is_ok());
    assert!(parse("import nefor.node.{}\nlet value = nefor.node.`>>>`(left, right)\n").is_ok());
}

#[test]
fn function_block_peer_bindings_shadow_import_aliases_before_declaration() {
    let module = parse(
        "import support.{value}\nlet f: fn() -> Int = | | => {\n  let result = value\n  let value = 1\n  result\n}\n",
    )
    .unwrap();
    let (_, value) = annotated(module.forms.last().unwrap(), "function");
    let Expr::Function(function) = value else {
        panic!("function")
    };
    assert!(matches!(
        &function.body[0],
        BlockItem::Let {
            value: Expr::Name(name),
            ..
        } if named(name, "value")
    ));
}

#[test]
fn constructor_product_uses_its_declared_payload_type() {
    let module = parse(
        "type PairResult = Pair(Int, String)\nlet number = 1\nlet text = \"x\"\nlet result: PairResult = PairResult.Pair(number, text)\n",
    )
    .unwrap();
    let (_, value) = annotated(module.forms.last().unwrap(), "constructor");
    let Expr::Construct { payload, .. } = value else {
        panic!("constructor")
    };
    assert!(matches!(
        payload.as_ref(),
        Expr::Ascribe {
            target: Type::Product(items),
            ..
        } if items.len() == 2 && type_named(&items[0], "Int") && type_named(&items[1], "String")
    ));
}

#[test]
fn expected_generic_owner_reaches_if_and_match_arms() {
    assert!(parse(
        "type Option<T> = Some(T) | None(Unit)\nlet value: Option<Int> = if true then Option.Some(1) else Option.None(nil)\n",
    )
    .is_ok());
    assert!(parse(
        "type Option<T> = Some(T) | None(Unit)\ntype Flag = Yes(Unit) | No(Unit)\nlet flag: Flag = Flag.Yes(nil)\nlet value: Option<Int> = match flag { case Yes(unit) => Option.Some(1), case No(unit) => Option.None(nil) }\n",
    )
    .is_ok());
}

#[test]
fn local_fixity_applies_to_an_imported_alias() {
    let module = parse(
        "import operators.{append as plus}\ninfixr 5 plus\nlet value = a plus b plus c\n",
    )
    .unwrap();
    let Expr::Call { callee, args, .. } = let_value(module.forms.last().unwrap(), "value") else {
        panic!("right-associated call")
    };
    assert!(matches!(callee.as_ref(), Expr::Name(name) if named(name, "operators.append")));
    assert!(
        matches!(args.as_slice(), [Expr::Name(left), Expr::Call { .. }] if named(left, "a"))
    );
}

#[test]
fn faults_carry_their_codes() {
    for (source, code) in [
        ("let x = ;\n", "MAG1001"),
        ("let x = \"open\n", "MAG1003"),
        ("let x = \"open", "MAG1002"),
        ("let x = \"\"\"open", "MAG1002"),
        ("let x = \"\\q\"\n", "MAG1004"),
        ("let x = ``\n", "MAG1005"),
        ("let x = 9223372036854775808\n", "MAG1006"),
        ("let x\n", "MAG2001"),
        ("infixl 10 +\n", "MAG2002"),
        ("infixl 5 +\ninfixr 6 +\n", "MAG2003"),
    ] {
        assert_eq!(diagnostic(source).code, code, "{source:?}");
    }
    assert!(parse("let x = 9223372036854775807\nlet y = -9223372036854775808\n").is_ok());
}

#[test]
fn left_association_nests_to_the_left() {
    let module = parse("infixl 5 ++\nlet y = a ++ b ++ c\n").unwrap();
    let Expr::Call { args, .. } = let_value(&module.forms[0], "infix") else {
        panic!("infix")
    };
    assert!(
        matches!(args.as_slice(), [Expr::Call { .. }, Expr::Name(name)] if named(name, "c"))
    );
}

#[test]
fn tighter_operators_bind_first() {
    let module = parse("infixl 5 +\ninfixl 6 *\nlet y = a + b * c\n").unwrap();
    let Expr::Call { callee, args, .. } = let_value(&module.forms[0], "infix") else {
        panic!("infix")
    };
    assert!(matches!(callee.as_ref(), Expr::Name(name) if named(name, "+")));
    assert!(matches!(args.as_slice(), [Expr::Name(_), Expr::Call { .. }]));
}

#[test]
fn closing_brackets_come_off_longer_operators() {
    let module = parse("let x: Map<String, List<Int>> = y\n").unwrap();
    let (target, _) = annotated(&module.forms[0], "let");
    assert!(
        matches!(target, Type::Apply { constructor, arguments }
            if named(constructor, "Map")
                && matches!(&arguments[1], Type::Apply { constructor, .. } if named(constructor, "List")))
    );
}
