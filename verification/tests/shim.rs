use amont::shim::{bake_state, is_package_managed, recover_baked, render, BakeState, ShimState};

/// A dispatcher shim of the shape the installer writes: the binary's path
/// appears in a comment and in the variable the shim executes.
const TEMPLATE: &str = "#!/bin/sh\n\
# Installed by amont; the binary is @AMONT_BIN@.\n\
BAKED=\"@AMONT_BIN@\"\n\
if [ -x \"$BAKED\" ]; then\n\
  exec \"$BAKED\" hook \"$(basename \"$0\")\" \"$@\"\n\
fi\n\
exec amont hook \"$(basename \"$0\")\" \"$@\"\n";

const PLACEHOLDER: &str = "@AMONT_BIN@";

fn ok(p: &str) -> ShimState {
    ShimState::Intact { baked: p.into() }
}

fn bake(shims: &[ShimState], installed: &str) -> BakeState {
    bake_state(shims, installed, PLACEHOLDER)
}

#[test]
fn a_bake_inside_node_modules_is_the_package_managers_business() {
    let npm = "/repo/node_modules/@amont-hooks/darwin-arm64/bin/amont";
    assert_eq!(
        bake(&[ok(npm)], "/home/me/.local/bin/amont"),
        BakeState::SelfManaged {
            path: npm.to_string()
        }
    );
    let legacy = "/repo/node_modules/amont-darwin-arm64/bin/amont";
    assert!(matches!(
        bake(&[ok(legacy)], "/home/me/.local/bin/amont"),
        BakeState::SelfManaged { .. }
    ));
    let pnpm = "/repo/node_modules/.pnpm/@amont-hooks+darwin-x64@1.20.0/node_modules/@amont-hooks/darwin-x64/bin/amont";
    assert!(matches!(
        bake(&[ok(pnpm)], "/home/me/.local/bin/amont"),
        BakeState::SelfManaged { .. }
    ));
    let win = r"C:\repo\node_modules\@amont-hooks\win32-x64\bin\amont.exe";
    assert!(matches!(
        bake(&[ok(win)], "/home/me/.local/bin/amont"),
        BakeState::SelfManaged { .. }
    ));
}

#[test]
fn only_a_real_path_segment_counts_as_package_managed() {
    for path in [
        "/srv/node_modules-backup/bin/amont",
        "/srv/my-node_modules/bin/amont",
        "/opt/amont/bin/amont",
    ] {
        assert_eq!(
            bake(&[ok(path)], "/bin/amont"),
            BakeState::Stale {
                path: path.to_string()
            },
            "{path} should still be stale"
        );
    }
}

#[test]
fn an_exact_match_outranks_the_node_modules_rule() {
    let p = "/repo/node_modules/.bin/amont";
    assert_eq!(bake(&[ok(p)], p), BakeState::Current);
}

#[test]
fn every_occurrence_is_substituted() {
    let expected = TEMPLATE.matches(PLACEHOLDER).count();
    assert!(expected > 0, "the template lost its placeholder entirely");
    let out = render(TEMPLATE, PLACEHOLDER, "/opt/amont");
    assert!(!out.contains(PLACEHOLDER), "a placeholder survived");
    assert_eq!(out.matches("/opt/amont").count(), expected);
}

#[test]
fn the_dashboard_renders_what_the_installer_writes() {
    assert_eq!(
        render(TEMPLATE, PLACEHOLDER, "/opt/amont"),
        TEMPLATE.replace(PLACEHOLDER, "/opt/amont")
    );
}

#[test]
fn a_correctly_baked_shim_is_not_drift() {
    let installed = render(TEMPLATE, PLACEHOLDER, "/Users/me/.local/bin/amont");
    assert_eq!(
        recover_baked(&installed, TEMPLATE, PLACEHOLDER).as_deref(),
        Some("/Users/me/.local/bin/amont"),
        "the whole fleet would read as drifted"
    );
}

#[test]
fn an_unbaked_shim_recovers_the_placeholder() {
    assert_eq!(
        recover_baked(TEMPLATE, TEMPLATE, PLACEHOLDER).as_deref(),
        Some(PLACEHOLDER)
    );
}

#[test]
fn genuine_drift_is_detected() {
    let mut edited = render(TEMPLATE, PLACEHOLDER, "/opt/amont");
    edited.push_str("\n# someone added this\n");
    assert_eq!(recover_baked(&edited, TEMPLATE, PLACEHOLDER), None);

    let hand_written = "#!/bin/sh\nBIN=\"/opt/amont\"\nexec \"$BIN\" \"$@\"\n";
    assert_eq!(
        recover_baked(hand_written, TEMPLATE, PLACEHOLDER),
        None,
        "a plausible-looking file that is not our template must not pass"
    );
}

#[test]
fn the_anchor_alone_does_not_satisfy_it() {
    let faked = render(TEMPLATE, PLACEHOLDER, "/opt/a").replace("exec", "# exec");
    assert!(faked.contains("BAKED=\"/opt/a\""));
    assert_eq!(recover_baked(&faked, TEMPLATE, PLACEHOLDER), None);
}

#[test]
fn bake_states() {
    assert_eq!(bake(&[ok("/bin/gh")], "/bin/gh"), BakeState::Current);
    assert_eq!(
        bake(&[ok("/old/gh")], "/bin/gh"),
        BakeState::Stale {
            path: "/old/gh".into()
        }
    );
    assert_eq!(bake(&[ok(PLACEHOLDER)], "/bin/gh"), BakeState::Unbaked);
    assert_eq!(bake(&[ok("/a"), ok("/b")], "/bin/gh"), BakeState::Mixed);
    assert_eq!(bake(&[ShimState::Missing], "/bin/gh"), BakeState::Nothing);
    assert_eq!(
        bake(
            &[ok("/bin/gh"), ok("/bin/gh"), ok("/bin/gh"), ok("/bin/gh")],
            "/bin/gh"
        ),
        BakeState::Current
    );
}

#[test]
fn package_management_is_a_whole_segment_on_either_separator() {
    assert!(is_package_managed("/a/node_modules/b"));
    assert!(is_package_managed(r"C:\a\node_modules\b"));
    assert!(is_package_managed("node_modules"));
    assert!(!is_package_managed("/a/node_modules2/b"));
    assert!(!is_package_managed("/a/b"));
}

#[test]
fn shims_that_are_not_intact_have_no_opinion() {
    assert_eq!(
        bake(
            &[
                ShimState::Drifted,
                ShimState::Symlink { target: None },
                ShimState::Unreadable { why: "x".into() },
                ok("/bin/gh"),
            ],
            "/bin/gh"
        ),
        BakeState::Current
    );
    assert_eq!(bake(&[], "/bin/gh"), BakeState::Nothing);
}

#[test]
fn a_template_ending_in_the_placeholder_still_recovers() {
    let t = "BIN=@AMONT_BIN@";
    let installed = render(t, PLACEHOLDER, "/x/y");
    assert_eq!(installed, "BIN=/x/y");
    assert_eq!(recover_baked(&installed, t, PLACEHOLDER).as_deref(), Some("/x/y"));
}

#[test]
fn every_ordinary_path_comes_back_out_of_its_render() {
    for path in ["/usr/local/bin/amont", "/Users/me/.local/bin/amont", "C:/tools/amont.exe", ""] {
        let installed = render(TEMPLATE, PLACEHOLDER, path);
        assert_eq!(recover_baked(&installed, TEMPLATE, PLACEHOLDER).as_deref(), Some(path));
    }
}

#[test]
fn baking_the_placeholder_itself_leaves_the_template() {
    assert_eq!(render(TEMPLATE, PLACEHOLDER, PLACEHOLDER), TEMPLATE);
    assert_eq!(render("no marker here", PLACEHOLDER, "/bin/amont"), "no marker here");
}
