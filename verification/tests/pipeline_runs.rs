use apk_disguise::pipeline::{
    derive_suffix, dir_part, file_stem, new_package_name, patch_manifest, Action, Event,
    PipelineRun, ToolPaths,
};

fn tools() -> ToolPaths {
    ToolPaths {
        java: "/usr/bin/java".to_string(),
        apktool: "/tools/apktool.jar".to_string(),
        zipalign: "/tools/zipalign".to_string(),
        apksigner: "/tools/apksigner.jar".to_string(),
        keystore: "/tools/release-key.jks".to_string(),
    }
}

fn started(
    apk: &str,
    prefix: &str,
    suffix: Option<String>,
    device: Option<String>,
    install_after: bool,
) -> (PipelineRun, Action) {
    PipelineRun::start(
        apk.to_string(),
        prefix,
        &suffix,
        device,
        install_after,
        tools(),
        "/tmp",
    )
}

fn ok_run() -> Event {
    Event::Ran { exit_success: true, stdout: String::new(), stderr: String::new() }
}

#[test]
fn suffix_comes_from_stem_when_no_custom_one() {
    assert_eq!(derive_suffix("game", &None), "game");
    assert_eq!(derive_suffix("My-Game2025X", &None), "mygame2025x");
    assert_eq!(derive_suffix("abcdefghijklmnop", &None), "abcdefghijkl");
    assert_eq!(derive_suffix("game", &Some("".to_string())), "game");
    assert_eq!(derive_suffix("game", &Some("custom".to_string())), "custom");
}

#[test]
fn scenario_a_derives_final_identity() {
    let (run, first) = started("game.apk", "cn.chinapost", None, None, false);
    assert_eq!(run.new_package, "cn.chinapost.game");
    assert_eq!(run.final_apk, "game_fixed.apk");
    assert_eq!(run.rebuilt_apk, "game_rebuilt.apk");
    assert_eq!(run.aligned_apk, "game_aligned.apk");
    assert_eq!(run.work_dir, "/tmp/apk_disguise_game");
    match first {
        Action::ClearWorkDir { path } => assert_eq!(path, "/tmp/apk_disguise_game"),
        _ => panic!("expected the working directory to be cleared first"),
    }
}

#[test]
fn identical_requests_derive_identical_plans() {
    let (a, _) = started("dir/game.apk", "cn.chinapost", None, None, false);
    let (b, _) = started("dir/game.apk", "cn.chinapost", None, None, false);
    assert_eq!(a.new_package, b.new_package);
    assert_eq!(a.work_dir, b.work_dir);
    assert_eq!(a.rebuilt_apk, b.rebuilt_apk);
    assert_eq!(a.aligned_apk, b.aligned_apk);
    assert_eq!(a.final_apk, b.final_apk);
}

#[test]
fn scenario_b_decompile_failure_is_terminal() {
    let (mut run, _) = started("game.apk", "cn.chinapost", None, None, false);
    let act = run.step(Event::WorkDirCleared);
    match act {
        Action::Run { program, args } => {
            assert_eq!(program, "/usr/bin/java");
            assert_eq!(
                args,
                vec![
                    "-jar",
                    "/tools/apktool.jar",
                    "d",
                    "game.apk",
                    "-o",
                    "/tmp/apk_disguise_game",
                    "-f",
                    "-s"
                ]
            );
        },
        _ => panic!("expected the decompile launch"),
    }
    let act = run.step(Event::Ran {
        exit_success: false,
        stdout: "tool output".to_string(),
        stderr: "tool error".to_string(),
    });
    match act {
        Action::Finish { result } => {
            assert!(!result.success);
            assert_eq!(result.step, Some("decompile".to_string()));
            assert_eq!(result.output_path, None);
            assert_eq!(result.message, "decompile failed: tool error tool output");
        },
        _ => panic!("expected a terminal result"),
    }
}

#[test]
fn scenario_c_full_build_without_install() {
    let (mut run, _) = started("game.apk", "cn.chinapost", None, None, false);
    let _ = run.step(Event::WorkDirCleared);
    let act = run.step(ok_run());
    match act {
        Action::ReadFile { path } => {
            assert_eq!(path, "/tmp/apk_disguise_game/AndroidManifest.xml")
        },
        _ => panic!("expected the manifest read"),
    }
    let manifest = "<manifest package=\"com.old.name\"><application android:label=\"x\"/></manifest>";
    let act = run.step(Event::FileLoaded { contents: manifest.to_string() });
    match act {
        Action::WriteFile { path, contents } => {
            assert_eq!(path, "/tmp/apk_disguise_game/AndroidManifest.xml");
            assert!(contents.contains("package=\"cn.chinapost.game\""));
            assert!(contents.contains("<uses-sdk"));
        },
        _ => panic!("expected the manifest write"),
    }
    let act = run.step(Event::FileStored);
    match act {
        Action::Run { program, args } => {
            assert_eq!(program, "/usr/bin/java");
            assert_eq!(
                args,
                vec![
                    "-jar",
                    "/tools/apktool.jar",
                    "b",
                    "/tmp/apk_disguise_game",
                    "-o",
                    "game_rebuilt.apk"
                ]
            );
        },
        _ => panic!("expected the rebuild launch"),
    }
    let act = run.step(ok_run());
    match act {
        Action::Run { program, args } => {
            assert_eq!(program, "/tools/zipalign");
            assert_eq!(args, vec!["-f", "-v", "4", "game_rebuilt.apk", "game_aligned.apk"]);
        },
        _ => panic!("expected the alignment launch"),
    }
    let act = run.step(ok_run());
    match act {
        Action::Run { program, args } => {
            assert_eq!(program, "/usr/bin/java");
            assert_eq!(args[0], "-jar");
            assert_eq!(args[1], "/tools/apksigner.jar");
            assert_eq!(args[2], "sign");
            assert_eq!(args[args.len() - 2], "game_fixed.apk");
            assert_eq!(args[args.len() - 1], "game_aligned.apk");
        },
        _ => panic!("expected the signing launch"),
    }
    let act = run.step(ok_run());
    match act {
        Action::RemoveArtifacts { work_dir, rebuilt_apk, aligned_apk } => {
            assert_eq!(work_dir, "/tmp/apk_disguise_game");
            assert_eq!(rebuilt_apk, "game_rebuilt.apk");
            assert_eq!(aligned_apk, "game_aligned.apk");
        },
        _ => panic!("expected the cleanup of intermediates"),
    }
    let act = run.step(Event::ArtifactsRemoved);
    match act {
        Action::Finish { result } => {
            assert!(result.success);
            assert_eq!(result.step, Some("complete".to_string()));
            assert_eq!(result.output_path, Some("game_fixed.apk".to_string()));
        },
        _ => panic!("expected the terminal success"),
    }
}

#[test]
fn scenario_d_install_without_marker_fails_but_keeps_artifact() {
    let (mut run, _) = started(
        "game.apk",
        "cn.chinapost",
        None,
        Some("dev1".to_string()),
        true,
    );
    let _ = run.step(Event::WorkDirCleared);
    let _ = run.step(ok_run());
    let manifest = "<manifest package=\"com.old.name\"><application/></manifest>";
    let _ = run.step(Event::FileLoaded { contents: manifest.to_string() });
    let _ = run.step(Event::FileStored);
    let _ = run.step(ok_run());
    let _ = run.step(ok_run());
    let _ = run.step(ok_run());
    let act = run.step(Event::ArtifactsRemoved);
    match act {
        Action::Run { program, args } => {
            assert_eq!(program, "adb");
            assert_eq!(
                args,
                vec!["-s", "dev1", "install", "-r", "-t", "-g", "game_fixed.apk"]
            );
        },
        _ => panic!("expected the install launch"),
    }
    let act = run.step(Event::Ran {
        exit_success: true,
        stdout: "Failure [INSTALL_FAILED_TEST_ONLY]".to_string(),
        stderr: String::new(),
    });
    match act {
        Action::Finish { result } => {
            assert!(!result.success);
            assert_eq!(result.step, Some("install".to_string()));
            assert_eq!(result.output_path, Some("game_fixed.apk".to_string()));
        },
        _ => panic!("expected the terminal install failure"),
    }
}

#[test]
fn install_with_marker_succeeds() {
    let (mut run, _) = started(
        "game.apk",
        "cn.chinapost",
        None,
        Some("dev1".to_string()),
        true,
    );
    let _ = run.step(Event::WorkDirCleared);
    let _ = run.step(ok_run());
    let manifest = "<manifest package=\"com.old.name\"><application/></manifest>";
    let _ = run.step(Event::FileLoaded { contents: manifest.to_string() });
    let _ = run.step(Event::FileStored);
    let _ = run.step(ok_run());
    let _ = run.step(ok_run());
    let _ = run.step(ok_run());
    let _ = run.step(Event::ArtifactsRemoved);
    let act = run.step(Event::Ran {
        exit_success: true,
        stdout: "Performing Streamed Install\nSuccess\n".to_string(),
        stderr: String::new(),
    });
    match act {
        Action::Finish { result } => {
            assert!(result.success);
            assert_eq!(result.step, Some("install".to_string()));
            assert_eq!(result.output_path, Some("game_fixed.apk".to_string()));
        },
        _ => panic!("expected the terminal install success"),
    }
}

#[test]
fn zipalign_failure_reports_rebuilt_artifact() {
    let (mut run, _) = started("game.apk", "cn.chinapost", None, None, false);
    let _ = run.step(Event::WorkDirCleared);
    let _ = run.step(ok_run());
    let manifest = "<manifest package=\"com.old.name\"><application/></manifest>";
    let _ = run.step(Event::FileLoaded { contents: manifest.to_string() });
    let _ = run.step(Event::FileStored);
    let _ = run.step(ok_run());
    let act = run.step(Event::Ran {
        exit_success: false,
        stdout: String::new(),
        stderr: "bad zip".to_string(),
    });
    match act {
        Action::Finish { result } => {
            assert!(!result.success);
            assert_eq!(result.step, Some("zipalign".to_string()));
            assert_eq!(result.output_path, Some("game_rebuilt.apk".to_string()));
            assert_eq!(result.message, "zipalign failed: bad zip");
        },
        _ => panic!("expected the terminal alignment failure"),
    }
}

#[test]
fn missing_package_attribute_aborts_hard() {
    let (mut run, _) = started("game.apk", "cn.chinapost", None, None, false);
    let _ = run.step(Event::WorkDirCleared);
    let _ = run.step(ok_run());
    let act = run.step(Event::FileLoaded { contents: "<manifest></manifest>".to_string() });
    match act {
        Action::Abort { error } => {
            assert_eq!(error, "manifest package attribute not found");
        },
        _ => panic!("expected a hard error"),
    }
}

#[test]
fn launch_failure_of_decompile_aborts_hard() {
    let (mut run, _) = started("game.apk", "cn.chinapost", None, None, false);
    let _ = run.step(Event::WorkDirCleared);
    let act = run.step(Event::LaunchFailed { error: "no such file".to_string() });
    match act {
        Action::Abort { error } => {
            assert_eq!(error, "decompile command failed to launch: no such file");
        },
        _ => panic!("expected a hard error"),
    }
}

#[test]
fn patch_replaces_only_first_package_attribute() {
    let m = "<a package=\"one.two\"/><b package=\"three.four\"/><uses-sdk/><application/>";
    let out = patch_manifest(m, "new.pkg").unwrap();
    assert_eq!(
        out,
        "<a package=\"new.pkg\"/><b package=\"three.four\"/><uses-sdk/><application/>"
    );
}

#[test]
fn patch_inserts_sdk_when_missing() {
    let m = "<manifest package=\"com.old\"><application/></manifest>";
    let out = patch_manifest(m, "new.pkg").unwrap();
    assert_eq!(
        out,
        "<manifest package=\"new.pkg\">    <uses-sdk android:minSdkVersion=\"19\" android:targetSdkVersion=\"27\"/>\n    <application/></manifest>"
    );
}

#[test]
fn patch_without_attribute_reports_error() {
    let r = patch_manifest("<manifest><application/></manifest>", "new.pkg");
    assert_eq!(r.unwrap_err(), "manifest package attribute not found");
}

#[test]
fn patch_skips_empty_quoted_value() {
    let m = "<a package=\"\"/><b package=\"real.one\"/>";
    let out = patch_manifest(m, "new.pkg").unwrap();
    assert_eq!(out, "<a package=\"\"/><b package=\"new.pkg\"/>");
}

#[test]
fn path_derivations_follow_the_source_name() {
    assert_eq!(file_stem("dir/sub/thing.apk"), "thing");
    assert_eq!(file_stem("thing.apk"), "thing");
    assert_eq!(file_stem(".hidden"), ".hidden");
    assert_eq!(file_stem(""), "apk");
    assert_eq!(dir_part("dir/sub/thing.apk"), "dir/sub/");
    assert_eq!(dir_part("thing.apk"), "");
    assert_eq!(new_package_name("cn.chinapost", "game"), "cn.chinapost.game");
}

#[test]
fn parent_directory_is_kept_for_artifacts() {
    let (run, _) = started("some/dir/app.apk", "com.x", None, None, false);
    assert_eq!(run.rebuilt_apk, "some/dir/app_rebuilt.apk");
    assert_eq!(run.final_apk, "some/dir/app_fixed.apk");
}
