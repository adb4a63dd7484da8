use haku::errors::HakuError;
use haku::func::call_function;
use haku::parse::parse_file_set;
use haku::text::parse_int;
use haku::value::Value;
use haku::vm::{Engine, RunOpts, StepEvent};

fn parse_one(src: &str) -> Result<Vec<haku::parse::Recipe>, HakuError> {
    let files = vec![(b"Taskfile".to_vec(), src.as_bytes().to_vec())];
    parse_file_set(&files, b"Taskfile").map(|p| p.0)
}

#[test]
fn balanced_file_yields_one_recipe_per_header() {
    let rs = parse_one(
        "recipe one\n  IF 1 == 1\n    ECHO a\n  END\nrecipe two\n  WHILE 0 == 1\n    ECHO b\n  END\n",
    )
    .unwrap();
    assert_eq!(rs.len(), 2);
    assert_eq!(rs[0].name, b"one".to_vec());
    assert_eq!(rs[1].name, b"two".to_vec());
}

#[test]
fn stray_end_is_a_parse_failure() {
    let err = parse_one("recipe a\n  END\n").unwrap_err();
    assert!(matches!(err, HakuError::StrayEndError(_)));
}

#[test]
fn unclosed_if_is_a_parse_failure() {
    let err = parse_one("recipe a\n  IF 1 == 1\n    ECHO x\n").unwrap_err();
    match err {
        HakuError::NoMatchingEndError(kw, extra) => {
            assert_eq!(kw, b"IF".to_vec());
            assert_eq!(extra, b"\n    at Taskfile:2".to_vec(), "the suffix names the unclosed IF");
        }
        other => panic!("expected NoMatchingEndError, got {:?}", other),
    }
}

#[test]
fn stray_else_and_elseif_are_parse_failures() {
    assert!(matches!(
        parse_one("recipe a\n  ELSE\n").unwrap_err(),
        HakuError::StrayElseError(_)
    ));
    assert!(matches!(
        parse_one("recipe a\n  ELSEIF 1 == 1\n").unwrap_err(),
        HakuError::StrayElseIfError(_)
    ));
    assert!(matches!(
        parse_one("recipe a\n  WHILE 1 == 1\n    ELSE\n  END\n").unwrap_err(),
        HakuError::StrayElseError(_)
    ));
}

#[test]
fn break_outside_loop_is_a_parse_failure() {
    assert!(matches!(
        parse_one("recipe a\n  BREAK\n").unwrap_err(),
        HakuError::NoMatchingForWhileError(_)
    ));
    assert!(matches!(
        parse_one("recipe a\n  IF 1 == 1\n    CONTINUE\n  END\n").unwrap_err(),
        HakuError::NoMatchingForWhileError(_)
    ));
}

#[test]
fn inclusion_directive_inside_recipe_is_rejected() {
    let body = format!("recipe a\n  {}{}\n", "inclu", "de \"x.hk\"");
    let err = parse_one(&body).unwrap_err();
    assert!(matches!(err, HakuError::IncludeInRecipeError(_)));
}

#[test]
fn variadic_parameter_must_be_last() {
    let err = parse_one("recipe a(*rest, x)\n  ECHO hi\n").unwrap_err();
    assert!(matches!(err, HakuError::RecipeListArgError(_)));
}

#[test]
fn malformed_feature_name_is_rejected() {
    let err = parse_one("recipe a when 9bad\n  ECHO hi\n").unwrap_err();
    assert!(matches!(err, HakuError::InvalidFeatureName(_, _)));
}

#[test]
fn empty_for_variable_name_is_rejected() {
    let err = parse_one("recipe a\n  FOR FROM 1 TO 3\n  END\n").unwrap_err();
    // `FROM` reads as the loop variable, so the range keyword is missing;
    // a truly empty name (a bare FOR) is the variable-name error.
    assert!(matches!(err, HakuError::ParseError(_, _)));
    let err2 = parse_one("recipe a\n  FOR !\n  END\n").unwrap_err();
    assert!(matches!(err2, HakuError::SeqVarNameError(_)));
}

#[test]
fn header_parts_are_recorded() {
    let rs = parse_one("recipe build(target): prep clean when linux # builds it\n  ECHO x\n")
        .unwrap();
    assert_eq!(rs.len(), 1);
    let r = &rs[0];
    assert_eq!(r.name, b"build".to_vec());
    assert_eq!(r.vars, vec![b"target".to_vec()]);
    assert_eq!(r.depends, vec![b"prep".to_vec(), b"clean".to_vec()]);
    assert_eq!(r.desc, b"builds it".to_vec());
    assert_eq!(r.feat, b"linux ".to_vec());
    assert!(!r.hidden);
    assert!(!r.system);
    assert_eq!(r.line, 1);
    assert_eq!(r.filename, b"Taskfile".to_vec());
}

#[test]
fn system_recipes_start_with_underscore() {
    let rs = parse_one("recipe _default\n  ECHO x\n").unwrap();
    assert!(rs[0].system);
}

#[test]
fn recipe_content_reports_raw_body() {
    let opts = RunOpts::new();
    let mut eng = Engine::new(opts);
    let files = vec![(
        b"Taskfile".to_vec(),
        b"recipe a\n  ECHO one\n  ECHO two\n".to_vec(),
    )];
    eng.load_from_set(&files, b"Taskfile").unwrap();
    let view = eng.recipe_content(b"a").unwrap();
    assert_eq!(
        view.content,
        vec![b"  ECHO one".to_vec(), b"  ECHO two".to_vec()]
    );
    assert!(view.enabled);
    assert_eq!(view.filename, b"Taskfile".to_vec());
    assert!(matches!(
        eng.recipe_content(b"zzz").unwrap_err(),
        HakuError::RecipeNotFoundError(_)
    ));
}

#[test]
fn error_extra_renders_file_and_line() {
    assert_eq!(
        HakuError::error_extra(b"f.hk", 12),
        b"\n    at f.hk:12".to_vec()
    );
    assert_eq!(HakuError::error_extra(b"", 3), b"\n    at :3".to_vec());
}

#[test]
fn decimal_parsing_is_exact() {
    assert_eq!(parse_int(b"0"), Some(0));
    assert_eq!(parse_int(b"42"), Some(42));
    assert_eq!(parse_int(b"-7"), Some(-7));
    assert_eq!(parse_int(b"999999999999999999"), Some(999_999_999_999_999_999));
    assert_eq!(
        parse_int(b"9223372036854775807"),
        Some(i64::MAX),
        "the full signed range is reachable"
    );
    assert_eq!(parse_int(b"-9223372036854775808"), Some(i64::MIN));
    assert_eq!(parse_int(b"9223372036854775808"), None, "one past the range is out");
    assert_eq!(parse_int(b""), None);
    assert_eq!(parse_int(b"-"), None);
    assert_eq!(parse_int(b"12a"), None);
}

#[test]
fn interpolation_handles_unclosed_and_unknown_names() {
    let scopes = haku::scope::Scopes::new();
    assert_eq!(
        haku::vm::interpolate(b"plain text", &scopes),
        b"plain text".to_vec()
    );
    assert_eq!(
        haku::vm::interpolate(b"a {open and no close", &scopes),
        b"a {open and no close".to_vec()
    );
    assert_eq!(haku::vm::interpolate(b"x{nope}y", &scopes), b"xy".to_vec());
}

#[test]
fn value_rendering_and_order() {
    assert_eq!(Value::Int(-5).render(), b"-5".to_vec());
    assert_eq!(Value::Str(b"hi".to_vec()).render(), b"hi".to_vec());
    assert_eq!(
        Value::List(vec![b"a".to_vec(), b"b".to_vec()]).render(),
        b"a b".to_vec()
    );
    assert!(Value::Int(1).eq_value(&Value::Str(b"1".to_vec())));
    assert!(Value::Int(2).lt_value(&Value::Int(10)));
    assert!(Value::Str(b"abc".to_vec()).lt_value(&Value::Str(b"abd".to_vec())));
    assert!(!Value::Int(0).is_truthy());
    assert!(Value::Str(b"x".to_vec()).is_truthy());
    assert!(!Value::Str(Vec::new()).is_truthy());
}

#[test]
fn builtin_call_errors_carry_the_name() {
    let args = vec![Value::Int(1), Value::Int(2)];
    let no_env: Vec<(Vec<u8>, Vec<u8>)> = Vec::new();
    match call_function(b"upper", &args, &no_env).unwrap_err() {
        HakuError::FunctionError(name) => assert_eq!(name, b"upper".to_vec()),
        other => panic!("expected FunctionError, got {:?}", other),
    }
}

#[test]
fn sibling_reinclusion_is_allowed() {
    // The same file referenced from two closed sibling branches is no
    // cycle: each branch opens and closes it in turn.
    let main = format!(
        "{0}{1}\n{0}{2}\n",
        "inclu", "de \"a.hk\"", "de \"b.hk\""
    );
    let a = format!("{}{}\n", "inclu", "de \"c.hk\"");
    let b = format!("{}{}\n", "inclu", "de \"c.hk\"");
    let files = vec![
        (b"Taskfile".to_vec(), main.as_bytes().to_vec()),
        (b"a.hk".to_vec(), a.as_bytes().to_vec()),
        (b"b.hk".to_vec(), b.as_bytes().to_vec()),
        (b"c.hk".to_vec(), b"recipe c\n  ECHO c\n".to_vec()),
    ];
    let (rs, _) = parse_file_set(&files, b"Taskfile").unwrap();
    assert_eq!(rs.len(), 1);
    assert_eq!(rs[0].name, b"c".to_vec());
}


#[test]
fn file_scope_variables_bind_before_the_run() {
    let opts = RunOpts::new();
    let mut eng = Engine::new(opts);
    let files = vec![(
        b"Taskfile".to_vec(),
        b"base = 7\nrecipe a\n  ECHO {base}\n".to_vec(),
    )];
    eng.load_from_set(&files, b"Taskfile").unwrap();
    let mut st = eng.start_run(b"a").unwrap();
    let mut shells: Vec<Vec<u8>> = Vec::new();
    loop {
        match eng.step(&mut st).unwrap() {
            StepEvent::Done => break,
            StepEvent::Shell { cmd, .. } => shells.push(cmd),
            _ => {}
        }
    }
    assert_eq!(shells, vec![b"ECHO 7".to_vec()]);
}

#[test]
fn guarded_file_variable_binds_only_with_the_feature() {
    let src = b"when fast: opt = 1\nrecipe a\n  ECHO [{opt}]\n".to_vec();
    let drive = |feats: Vec<Vec<u8>>| -> Vec<Vec<u8>> {
        let opts = RunOpts::new().with_features(feats);
        let mut eng = Engine::new(opts);
        let files = vec![(b"Taskfile".to_vec(), src.clone())];
        eng.load_from_set(&files, b"Taskfile").unwrap();
        let mut st = eng.start_run(b"a").unwrap();
        let mut shells: Vec<Vec<u8>> = Vec::new();
        loop {
            match eng.step(&mut st).unwrap() {
                StepEvent::Done => break,
                StepEvent::Shell { cmd, .. } => shells.push(cmd),
                _ => {}
            }
        }
        shells
    };
    assert_eq!(drive(vec![b"fast".to_vec()]), vec![b"ECHO [1]".to_vec()]);
    assert_eq!(drive(vec![]), vec![b"ECHO []".to_vec()]);
}

#[test]
fn env_builtin_consults_the_supplied_snapshot() {
    let opts = RunOpts::new().with_env(vec![
        (b"HOME".to_vec(), b"/home/u".to_vec()),
        (b"LANG".to_vec(), b"C".to_vec()),
    ]);
    let mut eng = Engine::new(opts);
    let files = vec![(
        b"Taskfile".to_vec(),
        b"recipe a\n  h = env('HOME')\n  ASSERT h == '/home/u'\n  ASSERT env('NOPE') == ''\n".to_vec(),
    )];
    eng.load_from_set(&files, b"Taskfile").unwrap();
    let mut st = eng.start_run(b"a").unwrap();
    loop {
        match eng.step(&mut st).unwrap() {
            StepEvent::Done => break,
            _ => {}
        }
    }
}

#[test]
fn logical_operators_short_circuit() {
    let opts = RunOpts::new();
    let mut eng = Engine::new(opts);
    let files = vec![(
        b"Taskfile".to_vec(),
        b"recipe a\n  IF 0 && nosuch(1)\n    ECHO then-arm\n  ELSE\n    ECHO else-arm\n  END\n  IF 1 || nosuch(1)\n    ECHO took\n  END\n".to_vec(),
    )];
    eng.load_from_set(&files, b"Taskfile").unwrap();
    let mut st = eng.start_run(b"a").unwrap();
    let mut shells: Vec<Vec<u8>> = Vec::new();
    loop {
        match eng.step(&mut st).unwrap() {
            StepEvent::Done => break,
            StepEvent::Shell { cmd, .. } => shells.push(cmd),
            _ => {}
        }
    }
    assert_eq!(shells, vec![b"ECHO else-arm".to_vec(), b"ECHO took".to_vec()]);
}
