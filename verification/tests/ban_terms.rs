use amont::ban_terms::{
    bare_debugger, blank_non_code, blank_rust, call_of, exts, exts_of, focused_suite,
    is_searchable, pdb_set_trace, rust_dbg, scan, terms, violates, Language, Term,
};
use amont::python_blank::blank_python;

#[test]
fn catches_the_banned_forms() {
    assert!(call_of("fit('x', () => {})", "fit"));
    assert!(call_of("  fit (", "fit"));
    assert!(call_of("fdescribe('x')", "fdescribe"));
    assert!(bare_debugger("  debugger;"));
    assert!(bare_debugger("debugger"));
    assert!(focused_suite("describe.skip('x')"));
    assert!(focused_suite("it.only('x')"));
    assert!(focused_suite("context.skip('x')"));
}

#[test]
fn ban_terms_leaves_lookalikes_alone() {
    assert!(!call_of("profit(", "fit"));
    assert!(!call_of("layout.fit(", "fit"));
    assert!(!bare_debugger("debuggerish"));
    assert!(!bare_debugger("x.debugger"));
    assert!(!focused_suite("describe.skipIf(cond)"));
    assert!(!focused_suite("it.onlyWhen(x)"));
    {
        assert!(!rust_dbg("xdbg!(1)"));
        assert!(!rust_dbg("dbg(1)"));
        assert!(!rust_dbg("debug!(x)"));
        assert!(!rust_dbg("dbg"));
    }
    {
        assert!(!call_of("self.breakpoint()", "breakpoint"));
        assert!(!call_of("my_breakpoint()", "breakpoint"));
        assert!(!pdb_set_trace("xpdb.set_trace()"));
        assert!(!pdb_set_trace("set_trace()"));
        assert!(!pdb_set_trace("pdb.set_trace"));
    }
}

#[test]
fn blanks_comments_and_strings_keeping_layout() {
    let src = "a\n// debugger;\nb";
    let out = blank_non_code(src);
    assert_eq!(out.len(), src.len(), "length must be preserved");
    assert_eq!(out.lines().count(), src.lines().count());
    assert!(!bare_debugger(&out), "a term in a comment is discussion");

    assert!(!bare_debugger(&blank_non_code("const s = 'debugger';")));
    assert!(!bare_debugger(&blank_non_code("const s = `debugger`;")));
    assert!(!call_of(&blank_non_code("/* fit( */"), "fit"));
}

#[test]
fn an_escape_never_closes_a_string() {
    let out = blank_non_code(r#"const s = "a\"b"; debugger;"#);
    assert!(bare_debugger(&out), "real code after the string must survive");
    assert!(!call_of(&blank_non_code(r#"const s = "a\"fit(";"#), "fit"));
}

#[test]
fn an_escaped_slash_before_the_terminator_no_longer_swallows_the_line() {
    for src in [r"const re = /a\//; debugger;", r"const re = /\//; debugger;"] {
        assert!(
            bare_debugger(&blank_non_code(src)),
            "code after the regex must still be scanned: {src}"
        );
    }
    assert!(!bare_debugger(&blank_non_code(r"const re = /a\//; const ok = 1;")));
}

#[test]
fn terms_inside_a_regex_literal_are_not_violations() {
    for src in [
        r"const re = /it\.only/;",
        r"if (x) { const r = /debugger/; }",
        r"foo(/fdescribe\(/);",
        r"return /describe\.skip/;",
        r"const r = /[/]debugger/;",
    ] {
        let b = blank_non_code(src);
        assert!(!bare_debugger(&b), "false alarm: {src}");
        assert!(!focused_suite(&b), "false alarm: {src}");
        assert!(!call_of(&b, "fdescribe"), "false alarm: {src}");
    }
}

#[test]
fn division_is_not_treated_as_a_regex() {
    let src = "const x = a / b; debugger;";
    assert!(bare_debugger(&blank_non_code(src)));
    let src2 = "const x = (a + b) / c; debugger;";
    assert!(bare_debugger(&blank_non_code(src2)));
}

#[test]
fn an_unterminated_regex_does_not_blank_the_rest_of_the_file() {
    let src = "const r = /oops
debugger;";
    assert!(bare_debugger(&blank_non_code(src)));
}

#[test]
fn blanking_still_preserves_length_and_lines() {
    let src = "const re = /a\\/b/;\ndebugger;\n// x\n";
    let out = blank_non_code(src);
    assert_eq!(out.len(), src.len());
    assert_eq!(out.lines().count(), src.lines().count());
}

#[test]
fn each_term_searches_only_its_own_language() {
    let js_like = exts_of(Language::JsLike);
    let rust = exts_of(Language::Rust);
    let python = exts_of(Language::Python);
    for f in ["a.js", "a.jsx", "a.ts", "a.tsx", "a.vue", "dir/b.ts"] {
        assert!(is_searchable(f, &js_like), "{f}");
    }
    for f in ["a.rs", "a.py", "a.md", "a.json", "README"] {
        assert!(!is_searchable(f, &js_like), "{f}");
    }
    assert!(is_searchable("src/lib.rs", &rust));
    assert!(!is_searchable("a.ts", &rust));
    assert!(is_searchable("app/main.py", &python));
    assert!(!is_searchable("a.pyi", &python), "stubs never execute");
}

#[test]
fn the_scope_is_the_union_of_the_terms() {
    let mut union: Vec<&str> = terms()
        .into_iter()
        .flat_map(|t| exts_of(t.language()))
        .collect();
    union.sort_unstable();
    union.dedup();
    let mut declared: Vec<&str> = exts();
    declared.sort_unstable();
    assert_eq!(union, declared);
}

#[test]
fn catches_the_macro_call() {
    assert!(rust_dbg("dbg!(x)"));
    assert!(rust_dbg("let y = dbg! (x);"));
    assert!(rust_dbg("std::dbg!(x)"));
    assert!(rust_dbg("dbg![x]"));
    assert!(rust_dbg("dbg!{x}"));
}

#[test]
fn ban_terms_comments_and_strings_are_discussion() {
    for src in [
        "// dbg!(x)\nlet a = 1;",
        "/* dbg!(x) */",
        "/// docs mentioning dbg!(x)\nfn f() {}",
        "let s = \"dbg!(x)\";",
        "let s = r\"dbg!(x)\";",
        "let s = r#\"dbg!(\"x\")\"#;",
        "let s = br\"dbg!(x)\";",
    ] {
        assert!(!rust_dbg(&blank_rust(src)), "false alarm: {src}");
    }
    {
        for src in [
            "# breakpoint()\nx = 1\n",
            "s = 'breakpoint()'\n",
            "s = \"pdb.set_trace()\"\n",
            "def f():\n    \"\"\"calls breakpoint() eventually\"\"\"\n",
            "s = '''ipdb.set_trace()'''\n",
            "s = f\"breakpoint( {x}\"\n",
            "s = f\"{{breakpoint()}}\"\n",
        ] {
            let b = blank_python(src);
            assert!(!call_of(&b, "breakpoint"), "false alarm: {src}");
            assert!(!pdb_set_trace(&b), "false alarm: {src}");
        }
    }
}

#[test]
fn block_comments_nest() {
    assert!(!rust_dbg(&blank_rust("/* /* x */ dbg!(1) */")));
    assert!(rust_dbg(&blank_rust("/* /* x */ */ dbg!(1)")));
}

#[test]
fn raw_string_hashes_are_honoured() {
    assert!(!rust_dbg(&blank_rust("let s = r#\"a\"b\"#;")));
    assert!(rust_dbg(&blank_rust("let s = r#\"a\"b\"#; dbg!(1);")));
    assert!(!rust_dbg(&blank_rust("let s = r##\"a\"# dbg!(1) \"##;")));
}

#[test]
fn a_char_literal_holding_a_quote_does_not_open_a_string() {
    assert!(rust_dbg(&blank_rust("let c = '\"'; dbg!(1);")));
    assert!(rust_dbg(&blank_rust("let c = '\\''; dbg!(1);")));
    assert!(rust_dbg(&blank_rust("let c = '\\\\'; dbg!(1);")));
    assert!(rust_dbg(&blank_rust("let c = '\\u{7f}'; dbg!(1);")));
}

#[test]
fn a_lifetime_does_not_swallow_the_line() {
    assert!(rust_dbg(&blank_rust("fn f<'a>(x: &'a str) { dbg!(x); }")));
    assert!(rust_dbg(&blank_rust("let x: &'static str = s; dbg!(x);")));
}

#[test]
fn ban_terms_blanking_preserves_length_and_lines() {
    let src = "let s = r#\"a\"b\"#;\n// dbg!(x)\nlet c = 'y';\n";
    let out = blank_rust(src);
    assert_eq!(out.len(), src.len());
    assert_eq!(out.lines().count(), src.lines().count());
    {
        let src = "# c\ns = f\"{x} y\"\nt = '''a\nb'''\n";
        let out = blank_python(src);
        assert_eq!(out.len(), src.len());
        assert_eq!(out.lines().count(), src.lines().count());
    }
}

/// A source that names the banned macro only in its strings and comments, as
/// the matcher's own source does, must pass its own scan.
#[test]
fn the_hooks_own_source_survives_its_own_scan() {
    let src = "/// Catches a left-behind `dbg!(..)` in Rust.\nfn rust_dbg(s: &str) -> bool {\n    // `dbg!` preceded by a word char is someone else's macro\n    s.contains(\"dbg!\") && !s.contains(r#\"xdbg!(\"#)\n}\nconst LABEL: &str = \"dbg!\";\nlet c = '!'; let b = b\"dbg!(1)\";\n/* outer /* dbg!(nested) */ still a comment */\n";
    assert!(!rust_dbg(&blank_rust(src)));
    assert!(scan("src/hooks/ban_terms.rs", src, "ban_terms").is_empty());
}

#[test]
fn catches_the_debug_calls() {
    assert!(call_of("breakpoint()", "breakpoint"));
    assert!(call_of("    breakpoint ()", "breakpoint"));
    assert!(pdb_set_trace("pdb.set_trace()"));
    assert!(pdb_set_trace("ipdb.set_trace()"));
    assert!(pdb_set_trace("x.pdb.set_trace()"));
}

#[test]
fn an_interpolation_is_code() {
    assert!(call_of(&blank_python("s = f\"{breakpoint()}\"\n"), "breakpoint"));
    assert!(call_of(
        &blank_python("s = f\"{f'{breakpoint()}'}\"\n"),
        "breakpoint"
    ));
    assert!(call_of(
        &blank_python("s = f\"{x:{w}} {breakpoint()}\"\n"),
        "breakpoint"
    ));
}

#[test]
fn a_raw_string_backslash_does_not_close_early() {
    let b = blank_python("s = r\"\\\"; breakpoint()\"\n");
    assert!(!call_of(&b, "breakpoint"));
}

#[test]
fn an_unterminated_string_does_not_blank_the_next_line() {
    let b = blank_python("s = 'oops\nbreakpoint()\n");
    assert!(call_of(&b, "breakpoint"));
}

#[test]
fn triple_quotes_span_lines_and_close_only_on_three() {
    let b = blank_python("s = \"\"\"\ntext \" and \"\" inside\nbreakpoint()\n\"\"\"\nx = 1\n");
    assert!(!call_of(&b, "breakpoint"));
    let b2 = blank_python("s = \"\"\"doc\"\"\"\nbreakpoint()\n");
    assert!(call_of(&b2, "breakpoint"));
}

#[test]
fn a_substitution_is_code() {
    let b = blank_non_code("const s = `${fit(1)}`;");
    assert!(call_of(&b, "fit"), "blanked to {b:?}");
}

#[test]
fn substitutions_nest() {
    let b = blank_non_code("const s = `${`${fit(1)}`}`;");
    assert!(call_of(&b, "fit"), "blanked to {b:?}");
    assert!(
        b.contains("${`${fit(1)}`}"),
        "nesting must be tracked, not merely survived: {b:?}"
    );
}

#[test]
fn braces_inside_a_substitution_do_not_close_it() {
    let b = blank_non_code("const s = `${ {a: 1}.a }` + 'fit(';");
    assert!(!call_of(&b, "fit"), "the string literal must stay blanked: {b:?}");
    let b2 = blank_non_code("const s = `${ {a: 1}.a } ${fit(2)}`;");
    assert!(call_of(&b2, "fit"), "blanked to {b2:?}");
    let b3 = blank_non_code("const s = `${ {a: 1} && fit(2) }`;");
    assert!(
        call_of(&b3, "fit"),
        "a `}}` closing a nested object must not end the substitution: {b3:?}"
    );
}

#[test]
fn template_text_is_still_blanked() {
    assert!(!call_of(&blank_non_code("const s = `fit(`;"), "fit"));
    assert!(
        !call_of(&blank_non_code(r#"const s = `\${fit(1)}`;"#), "fit"),
        "an escaped dollar does not open a substitution"
    );
}

#[test]
fn nested_constructs_inside_a_substitution() {
    assert!(!call_of(&blank_non_code("const s = `${/* fit(1) */ x}`;"), "fit"));
    assert!(!call_of(&blank_non_code(r#"const s = `${"fit("}`;"#), "fit"));
    assert!(!call_of(
        &blank_non_code(r"const s = `${/fit\(/.test(y)}`;"),
        "fit"
    ));
}

#[test]
fn a_stray_brace_in_code_is_harmless() {
    let b = blank_non_code("function f() { return 1; }\nfit(() => {});");
    assert!(call_of(&b, "fit"), "blanked to {b:?}");
}

#[test]
fn a_scan_places_each_term_it_finds() {
    let found = scan("web/app.ts", "const a = 1;\n  debugger;\n", "ban_terms");
    assert_eq!(found.len(), 1);
    assert_eq!(found[0].line, Some(2));
    assert_eq!(found[0].column, Some(3));
    assert!(found[0].message.contains("debugger"));
}

#[test]
fn a_scan_ignores_files_outside_the_terms_languages() {
    assert!(scan("notes.md", "debugger;\ndbg!(x)\nbreakpoint()\n", "ban_terms").is_empty());
    assert_eq!(scan("a.py", "x = 1\nbreakpoint()\n", "ban_terms").len(), 1);
    assert_eq!(scan("a.rs", "fn f() { dbg!(1); }\n", "ban_terms").len(), 1);
}

#[test]
fn unreadable_content_keeps_the_prefilters_verdict() {
    assert!(violates(Term::Debugger, None), "unreadable content keeps the prefilter's verdict");
    assert!(violates(Term::Debugger, Some("debugger;")));
    assert!(!violates(Term::Debugger, Some("// debugger;")));
    assert_eq!(Term::Dbg.label(), "dbg!");
    assert_eq!(Term::SetTrace.language(), Language::Python);
}

#[test]
fn each_term_hands_git_its_loose_prefilter() {
    assert_eq!(Term::Fit.prefilter(), "\\s*fit\\(");
    assert_eq!(Term::SkipOnly.prefilter(), "(describe|context|it)\\.(skip|only)");
    assert_eq!(Term::Dbg.prefilter(), "dbg!");
    assert_eq!(Term::SetTrace.prefilter(), "set_trace");
}

#[test]
fn an_escaped_newline_in_a_string_keeps_its_line() {
    let src = "const s = 'a\\\nb'; fit(x)\n";
    let out = amont::ban_terms::blank_non_code(src);
    assert_eq!(out.chars().count(), src.chars().count());
    assert_eq!(out.lines().count(), src.lines().count());
    assert_eq!(out, "const s = '    '; fit(x)\n".replacen("    ", "  \n ", 1));
}
