use haku::errors::HakuError;
use haku::vm::Engine;
use haku::vm::RunOpts;
use haku::vm::StepEvent;

fn fileset(files: &[(&str, &str)]) -> Vec<(Vec<u8>, Vec<u8>)> {
    files
        .iter()
        .map(|(p, c)| (p.as_bytes().to_vec(), c.as_bytes().to_vec()))
        .collect()
}

fn engine_for(src: &str, dry: bool, feats: &[&str]) -> Result<Engine, HakuError> {
    let opts = RunOpts::new()
        .with_dry_run(dry)
        .with_features(feats.iter().map(|f| f.as_bytes().to_vec()).collect());
    let mut eng = Engine::new(opts);
    let files = fileset(&[("Taskfile", src)]);
    eng.load_from_set(&files, b"Taskfile")?;
    Ok(eng)
}

/// Drives a run to completion, answering every shell event with success.
fn run_collect(eng: &Engine, name: &str) -> Result<(Vec<Vec<u8>>, Vec<Vec<u8>>), HakuError> {
    let mut st = eng.start_run(name.as_bytes())?;
    let mut shells: Vec<Vec<u8>> = Vec::new();
    let mut steps = 0u32;
    loop {
        steps += 1;
        assert!(steps < 100000, "runaway recipe");
        match eng.step(&mut st)? {
            StepEvent::Done => break,
            StepEvent::Shell { cmd, .. } => shells.push(cmd),
            StepEvent::ChangeDir { .. } => {}
            StepEvent::RestoreDir => {}
            StepEvent::Progress => {}
        }
    }
    Ok((shells, st.log))
}

#[test]
fn for_range_runs_three_sequential_echoes() {
    let eng = engine_for(
        "recipe _default\n  FOR i FROM 1 TO 3\n    ECHO {i}\n  END\n",
        false,
        &[],
    )
    .unwrap();
    let (shells, _) = run_collect(&eng, "").unwrap();
    assert_eq!(
        shells,
        vec![b"ECHO 1".to_vec(), b"ECHO 2".to_vec(), b"ECHO 3".to_vec()]
    );
}

#[test]
fn for_step_zero_fails_without_running_body() {
    let eng = engine_for(
        "recipe a\n  FOR i FROM 1 TO 3 STEP 0\n    ECHO {i}\n  END\n",
        false,
        &[],
    )
    .unwrap();
    let mut st = eng.start_run(b"a").unwrap();
    let mut shells = 0;
    let err = loop {
        match eng.step(&mut st) {
            Ok(StepEvent::Done) => panic!("expected ForeverForError"),
            Ok(StepEvent::Shell { .. }) => shells += 1,
            Ok(_) => {}
            Err(e) => break e,
        }
    };
    assert!(matches!(err, HakuError::ForeverForError(_)));
    assert_eq!(shells, 0);
}

#[test]
fn mutual_dependency_fails_with_recursion_error() {
    let eng = engine_for("recipe A: B\nrecipe B: A\n", false, &[]).unwrap();
    let err = run_collect(&eng, "A").unwrap_err();
    match err {
        HakuError::RecipeRecursionError(name, _) => assert_eq!(name, b"A".to_vec()),
        other => panic!("expected RecipeRecursionError, got {:?}", other),
    }
}

#[test]
fn self_dependency_fails_before_any_statement() {
    let eng = engine_for("recipe a: a\n  ECHO hi\n", false, &[]).unwrap();
    let mut st = eng.start_run(b"a").unwrap();
    let mut shells = 0;
    let err = loop {
        match eng.step(&mut st) {
            Ok(StepEvent::Done) => panic!("expected RecipeRecursionError"),
            Ok(StepEvent::Shell { .. }) => shells += 1,
            Ok(_) => {}
            Err(e) => break e,
        }
    };
    assert!(matches!(err, HakuError::RecipeRecursionError(_, _)));
    assert_eq!(shells, 0, "no body statement may run");
}

#[test]
fn missing_inclusion_target_names_resolved_path() {
    let directive = format!("{}{}", "inclu", "de \"missing.inc\"\n");
    let opts = RunOpts::new();
    let mut eng = Engine::new(opts);
    let files = fileset(&[("Taskfile", directive.as_str())]);
    let err = eng.load_from_set(&files, b"Taskfile").unwrap_err();
    match err {
        HakuError::IncludeNotFound(path, _) => assert_eq!(path, b"missing.inc".to_vec()),
        other => panic!("expected IncludeNotFound, got {:?}", other),
    }
}

#[test]
fn failed_assert_stops_remaining_statements() {
    let eng = engine_for("recipe a\n  ASSERT 1 == 2\n  ECHO hi\n", false, &[]).unwrap();
    let mut st = eng.start_run(b"a").unwrap();
    let mut shells = 0;
    let err = loop {
        match eng.step(&mut st) {
            Ok(StepEvent::Done) => panic!("expected AssertError"),
            Ok(StepEvent::Shell { .. }) => shells += 1,
            Ok(_) => {}
            Err(e) => break e,
        }
    };
    match err {
        HakuError::AssertError(text, extra) => {
            assert_eq!(text, b"1 == 2".to_vec());
            assert_eq!(extra, b"\n    at Taskfile:2".to_vec());
        }
        other => panic!("expected AssertError, got {:?}", other),
    }
    assert_eq!(shells, 0);
}

#[test]
fn second_cd_of_a_recipe_does_not_save_again() {
    let eng = engine_for("recipe a\n  CD /tmp\n  CD /\n", false, &[]).unwrap();
    let mut st = eng.start_run(b"a").unwrap();
    let mut saves: Vec<bool> = Vec::new();
    loop {
        match eng.step(&mut st).unwrap() {
            StepEvent::Done => break,
            StepEvent::ChangeDir { save, .. } => saves.push(save),
            _ => {}
        }
    }
    assert_eq!(saves, vec![true, false]);
}

#[test]
fn dry_run_logs_commands_without_spawning() {
    let eng = engine_for(
        "recipe _default\n  FOR i FROM 1 TO 3\n    ECHO {i}\n  END\n",
        true,
        &[],
    )
    .unwrap();
    let (shells, log) = run_collect(&eng, "").unwrap();
    assert!(shells.is_empty(), "dry run must never ask for a spawn");
    assert_eq!(
        log,
        vec![b"ECHO 1".to_vec(), b"ECHO 2".to_vec(), b"ECHO 3".to_vec()]
    );
}

#[test]
fn dry_run_still_executes_assignments_and_asserts() {
    let eng = engine_for("recipe a\n  x = 5\n  ASSERT x == 5\n", true, &[]).unwrap();
    run_collect(&eng, "a").unwrap();
    let eng2 = engine_for("recipe a\n  ASSERT 1 == 2\n", true, &[]).unwrap();
    assert!(matches!(
        run_collect(&eng2, "a").unwrap_err(),
        HakuError::AssertError(_, _)
    ));
}

#[test]
fn feature_guard_toggles_enabled_flag() {
    let src = "recipe a when linux\n  ECHO hi\n";
    let eng_on = engine_for(src, false, &["linux"]).unwrap();
    assert!(eng_on.recipe_content(b"a").unwrap().enabled);
    let eng_off = engine_for(src, false, &[]).unwrap();
    assert!(!eng_off.recipe_content(b"a").unwrap().enabled);
    assert!(matches!(
        run_collect(&eng_off, "a").unwrap_err(),
        HakuError::RecipeDisabledError(_)
    ));
}

#[test]
fn guard_negation_and_combinators() {
    let src = "recipe a when !win & linux\n  ECHO hi\n";
    assert!(engine_for(src, false, &["linux"])
        .unwrap()
        .recipe_content(b"a")
        .unwrap()
        .enabled);
    assert!(!engine_for(src, false, &["linux", "win"])
        .unwrap()
        .recipe_content(b"a")
        .unwrap()
        .enabled);
    let src_or = "recipe a when mac | linux\n  ECHO hi\n";
    assert!(engine_for(src_or, false, &["mac"])
        .unwrap()
        .recipe_content(b"a")
        .unwrap()
        .enabled);
    assert!(!engine_for(src_or, false, &[]).unwrap().recipe_content(b"a").unwrap().enabled);
}

#[test]
fn listings_are_disjoint() {
    let src = "recipe a\n  ECHO a\nrecipe b when off\n  ECHO b\nhidden recipe c\n  ECHO c\nrecipe _sys\n  ECHO s\n";
    let eng = engine_for(src, false, &[]).unwrap();
    let listed = eng.recipes_listed();
    let disabled = eng.disabled_recipes();
    let hidden = eng.hidden_recipes();
    for i in &listed {
        assert!(!disabled.contains(i), "enabled listing overlaps disabled");
        assert!(!hidden.contains(i), "enabled listing overlaps hidden");
    }
    for i in &hidden {
        assert!(!disabled.contains(i), "hidden listing overlaps disabled");
    }
    assert_eq!(listed.len(), 1, "only recipe a is plainly listed");
    assert_eq!(disabled.len(), 1);
    assert_eq!(hidden.len(), 1);
}

#[test]
fn inner_assignment_shadows_but_does_not_alter_outer() {
    let eng = engine_for(
        "recipe a\n  x = 1\n  FOR i FROM 1 TO 1\n    x = 2\n    ECHO in {x}\n  END\n  ECHO out {x}\n",
        false,
        &[],
    )
    .unwrap();
    let (shells, _) = run_collect(&eng, "a").unwrap();
    assert_eq!(shells, vec![b"ECHO in 2".to_vec(), b"ECHO out 1".to_vec()]);
}

#[test]
fn global_write_form_reaches_outer_scope() {
    let eng = engine_for(
        "recipe a\n  FOR i FROM 1 TO 1\n    global g = 7\n    l = 8\n  END\n  ECHO {g}:{l}\n",
        false,
        &[],
    )
    .unwrap();
    let (shells, _) = run_collect(&eng, "a").unwrap();
    assert_eq!(shells, vec![b"ECHO 7:".to_vec()]);
}

#[test]
fn while_loop_counts_with_global_counter() {
    let eng = engine_for(
        "recipe a\n  global i = 0\n  WHILE i < 3\n    global i = i + 1\n  END\n  ASSERT i == 3\n",
        false,
        &[],
    )
    .unwrap();
    run_collect(&eng, "a").unwrap();
}

#[test]
fn for_each_iterates_words() {
    let eng = engine_for(
        "recipe a\n  FOR w IN 'x y z'\n    ECHO {w}\n  END\n",
        false,
        &[],
    )
    .unwrap();
    let (shells, _) = run_collect(&eng, "a").unwrap();
    assert_eq!(
        shells,
        vec![b"ECHO x".to_vec(), b"ECHO y".to_vec(), b"ECHO z".to_vec()]
    );
}

#[test]
fn break_leaves_innermost_loop() {
    let eng = engine_for(
        "recipe a\n  FOR i FROM 1 TO 5\n    ECHO {i}\n    IF i == 2\n      BREAK\n    END\n  END\n",
        false,
        &[],
    )
    .unwrap();
    let (shells, _) = run_collect(&eng, "a").unwrap();
    assert_eq!(shells, vec![b"ECHO 1".to_vec(), b"ECHO 2".to_vec()]);
}

#[test]
fn continue_skips_rest_of_iteration() {
    let eng = engine_for(
        "recipe a\n  FOR i FROM 1 TO 3\n    IF i == 2\n      CONTINUE\n    END\n    ECHO {i}\n  END\n",
        false,
        &[],
    )
    .unwrap();
    let (shells, _) = run_collect(&eng, "a").unwrap();
    assert_eq!(shells, vec![b"ECHO 1".to_vec(), b"ECHO 3".to_vec()]);
}

#[test]
fn if_elseif_else_picks_one_branch() {
    let src = "recipe a\n  x = 2\n  IF x == 1\n    ECHO one\n  ELSEIF x == 2\n    ECHO two\n  ELSE\n    ECHO other\n  END\n";
    let eng = engine_for(src, false, &[]).unwrap();
    let (shells, _) = run_collect(&eng, "a").unwrap();
    assert_eq!(shells, vec![b"ECHO two".to_vec()]);
    let src_else = "recipe a\n  x = 9\n  IF x == 1\n    ECHO one\n  ELSEIF x == 2\n    ECHO two\n  ELSE\n    ECHO other\n  END\n";
    let eng2 = engine_for(src_else, false, &[]).unwrap();
    let (shells2, _) = run_collect(&eng2, "a").unwrap();
    assert_eq!(shells2, vec![b"ECHO other".to_vec()]);
}

#[test]
fn dependencies_run_in_order_before_body() {
    let src = "recipe a: b c\n  ECHO a\nrecipe b\n  ECHO b\nrecipe c\n  ECHO c\n";
    let eng = engine_for(src, false, &[]).unwrap();
    let (shells, _) = run_collect(&eng, "a").unwrap();
    assert_eq!(
        shells,
        vec![b"ECHO b".to_vec(), b"ECHO c".to_vec(), b"ECHO a".to_vec()]
    );
}

#[test]
fn unknown_recipe_and_missing_default() {
    let eng = engine_for("recipe a\n  ECHO a\n", false, &[]).unwrap();
    match run_collect(&eng, "nope").unwrap_err() {
        HakuError::RecipeNotFoundError(name) => assert_eq!(name, b"nope".to_vec()),
        other => panic!("expected RecipeNotFoundError, got {:?}", other),
    }
    assert!(matches!(
        run_collect(&eng, "").unwrap_err(),
        HakuError::DefaultRecipeError
    ));
}

#[test]
fn raise_fails_with_user_error() {
    let eng = engine_for("recipe a\n  RAISE 'boom'\n", false, &[]).unwrap();
    match run_collect(&eng, "a").unwrap_err() {
        HakuError::UserError(msg, _) => assert_eq!(msg, b"boom".to_vec()),
        other => panic!("expected UserError, got {:?}", other),
    }
}

#[test]
fn cd_emits_change_dir_event() {
    let eng = engine_for("recipe a\n  CD /tmp\n  ECHO x\n", false, &[]).unwrap();
    let mut st = eng.start_run(b"a").unwrap();
    let mut saw_cd = false;
    loop {
        match eng.step(&mut st).unwrap() {
            StepEvent::Done => break,
            StepEvent::ChangeDir { path, .. } => {
                saw_cd = true;
                assert_eq!(path, b"/tmp".to_vec());
            }
            _ => {}
        }
    }
    assert!(saw_cd);
}

#[test]
fn free_args_bind_positionally_with_variadic_tail() {
    let src = "recipe a(x, *rest)\n  ECHO {x}/{rest}\n";
    let opts = RunOpts::new();
    let mut eng = Engine::new(opts);
    let files = fileset(&[("Taskfile", src)]);
    eng.load_from_set(&files, b"Taskfile").unwrap();
    eng.set_free_args(vec![b"1".to_vec(), b"2".to_vec(), b"3".to_vec()]);
    let (shells, _) = run_collect(&eng, "a").unwrap();
    assert_eq!(shells, vec![b"ECHO 1/2 3".to_vec()]);
}

#[test]
fn duplicate_recipe_last_definition_wins() {
    let src = "recipe a\n  ECHO first\nrecipe a\n  ECHO second\n";
    let eng = engine_for(src, false, &[]).unwrap();
    let (shells, _) = run_collect(&eng, "a").unwrap();
    assert_eq!(shells, vec![b"ECHO second".to_vec()]);
}

#[test]
fn seq_errors_for_bad_ranges() {
    let eng = engine_for("recipe a\n  FOR i FROM 3 TO 1\n    ECHO {i}\n  END\n", false, &[])
        .unwrap();
    assert!(matches!(
        run_collect(&eng, "a").unwrap_err(),
        HakuError::SeqError(3, 1, 1)
    ));
    let eng2 = engine_for(
        "recipe a\n  FOR i FROM 'x' TO 3\n    ECHO {i}\n  END\n",
        false,
        &[],
    )
    .unwrap();
    assert!(matches!(
        run_collect(&eng2, "a").unwrap_err(),
        HakuError::SeqIntError(_, _)
    ));
}

#[test]
fn descending_range_with_negative_step() {
    let eng = engine_for(
        "recipe a\n  FOR i FROM 3 TO 1 STEP 0 - 1\n    ECHO {i}\n  END\n",
        false,
        &[],
    )
    .unwrap();
    let (shells, _) = run_collect(&eng, "a").unwrap();
    assert_eq!(
        shells,
        vec![b"ECHO 3".to_vec(), b"ECHO 2".to_vec(), b"ECHO 1".to_vec()]
    );
}

#[test]
fn builtin_functions_in_expressions() {
    let src = "recipe a\n  x = upper('abc')\n  ASSERT x == 'ABC'\n  ASSERT lower('AbC') == 'abc'\n  ASSERT len('abcd') == 4\n  ASSERT int('42') == 42\n";
    let eng = engine_for(src, false, &[]).unwrap();
    run_collect(&eng, "a").unwrap();
}

#[test]
fn unknown_function_fails_with_function_error() {
    let eng = engine_for("recipe a\n  x = nosuch(1)\n", false, &[]).unwrap();
    assert!(matches!(
        run_collect(&eng, "a").unwrap_err(),
        HakuError::FunctionError(_)
    ));
}

#[test]
fn ignore_failure_marker_is_carried_on_shell_event() {
    let eng = engine_for("recipe a\n  - badcmd x\n  ECHO y\n", false, &[]).unwrap();
    let mut st = eng.start_run(b"a").unwrap();
    let mut events = Vec::new();
    loop {
        match eng.step(&mut st).unwrap() {
            StepEvent::Done => break,
            StepEvent::Shell {
                cmd,
                ignore_failure,
                ..
            } => events.push((cmd, ignore_failure)),
            _ => {}
        }
    }
    assert_eq!(
        events,
        vec![(b"badcmd x".to_vec(), true), (b"ECHO y".to_vec(), false)]
    );
}

#[test]
fn inclusion_merges_recipes_from_both_files() {
    let directive = format!("{}{}", "inclu", "de \"more.hk\"\nrecipe a\n  ECHO a\n");
    let opts = RunOpts::new();
    let mut eng = Engine::new(opts);
    let files = fileset(&[
        ("Taskfile", directive.as_str()),
        ("more.hk", "recipe b\n  ECHO b\n"),
    ]);
    eng.load_from_set(&files, b"Taskfile").unwrap();
    let (shells, _) = run_collect(&eng, "b").unwrap();
    assert_eq!(shells, vec![b"ECHO b".to_vec()]);
    let (shells_a, _) = run_collect(&eng, "a").unwrap();
    assert_eq!(shells_a, vec![b"ECHO a".to_vec()]);
}

#[test]
fn inclusion_cycle_is_detected() {
    let d1 = format!("{}{}", "inclu", "de \"two.hk\"\n");
    let d2 = format!("{}{}", "inclu", "de \"one.hk\"\n");
    let opts = RunOpts::new();
    let mut eng = Engine::new(opts);
    let files = fileset(&[("one.hk", d1.as_str()), ("two.hk", d2.as_str())]);
    let err = eng.load_from_set(&files, b"one.hk").unwrap_err();
    assert!(matches!(err, HakuError::IncludeRecursionError(_)));
}

#[test]
fn nested_loops_iterate_fully() {
    let eng = engine_for(
        "recipe a\n  FOR i FROM 1 TO 2\n    FOR j FROM 1 TO 2\n      ECHO {i}{j}\n    END\n  END\n",
        false,
        &[],
    )
    .unwrap();
    let (shells, _) = run_collect(&eng, "a").unwrap();
    assert_eq!(
        shells,
        vec![
            b"ECHO 11".to_vec(),
            b"ECHO 12".to_vec(),
            b"ECHO 21".to_vec(),
            b"ECHO 22".to_vec()
        ]
    );
}

#[test]
fn while_with_false_condition_skips_body() {
    let eng = engine_for(
        "recipe a\n  WHILE 1 == 2\n    ECHO never\n  END\n  ECHO after\n",
        false,
        &[],
    )
    .unwrap();
    let (shells, _) = run_collect(&eng, "a").unwrap();
    assert_eq!(shells, vec![b"ECHO after".to_vec()]);
}

#[test]
fn resolved_include_path_joins_the_directory() {
    let directive = format!("{}{}", "inclu", "de \"missing.inc\"\n");
    let opts = RunOpts::new();
    let mut eng = Engine::new(opts);
    let files = fileset(&[("d/Taskfile", directive.as_str())]);
    let err = eng.load_from_set(&files, b"d/Taskfile").unwrap_err();
    match err {
        HakuError::IncludeNotFound(path, extra) => {
            assert_eq!(path, b"d/missing.inc".to_vec(), "joined with the including directory");
            assert_eq!(extra, b"\n    at d/Taskfile:1".to_vec());
        }
        other => panic!("expected IncludeNotFound, got {:?}", other),
    }
}
