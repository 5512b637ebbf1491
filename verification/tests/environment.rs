use std::path::PathBuf;

use scratch_dir::agent_env::{apply_to_env, AgentEnv, TEMP_ENV_KEYS};
use scratch_dir::settings::{isolation_enabled, scratch_root, SCRATCH_NAMESPACE};

const UNIX: bool = false;
const WINDOWS: bool = true;

fn env_of(vars: &[(&str, &str)]) -> AgentEnv {
    let mut env = AgentEnv::new();
    for (key, value) in vars {
        env.insert(key.to_string(), value.to_string());
    }
    env
}

/// Windows env names are case-insensitive while this map is not, so a per-agent
/// `tmp` would ride along beside the injected `TMP` and the child could read
/// either. Unix is the opposite case: there the two really are different
/// variables and dropping one would destroy a setting.
#[test]
fn a_case_variant_temp_key_cannot_shadow_the_scratch_dir() {
    for windows in [UNIX, WINDOWS] {
        let mut env = AgentEnv::new();
        env.insert("tmp".to_string(), "/somewhere/else".to_string());
        env.insert("Temp".to_string(), "/somewhere/else".to_string());
        env.insert("UNRELATED".to_string(), "keep me".to_string());

        apply_to_env(&mut env, &PathBuf::from("/scratch/abc"), windows);

        assert_eq!(env.get("UNRELATED").map(String::as_str), Some("keep me"));
        for key in TEMP_ENV_KEYS {
            assert_eq!(env.get(key).map(String::as_str), Some("/scratch/abc"));
        }
        for variant in ["tmp", "Temp"] {
            assert_eq!(
                env.contains_key(variant),
                !windows,
                "{variant} must be dropped on Windows and kept on Unix"
            );
        }
    }
}

#[test]
fn apply_to_env_sets_all_three_names() {
    let mut env = AgentEnv::new();
    // A per-agent value that would otherwise win: `GetTempPathW` reads `TMP`
    // first, so leaving this in place would silently defeat the isolation.
    env.insert("TMP".to_string(), "/somewhere/else".to_string());
    apply_to_env(&mut env, &PathBuf::from("/scratch/abc"), UNIX);
    for key in TEMP_ENV_KEYS {
        assert_eq!(env.get(key).map(String::as_str), Some("/scratch/abc"));
    }
}

#[test]
fn other_variables_survive_on_either_platform() {
    for windows in [UNIX, WINDOWS] {
        let mut env = env_of(&[("PATH", "/bin"), ("TMPDIRS", "x"), ("TM", "y"), ("", "z")]);
        env.point_at("/s", windows);
        assert_eq!(
            env.into_entries(),
            vec![
                ("".to_string(), "z".to_string()),
                ("PATH".to_string(), "/bin".to_string()),
                ("TEMP".to_string(), "/s".to_string()),
                ("TM".to_string(), "y".to_string()),
                ("TMP".to_string(), "/s".to_string()),
                ("TMPDIR".to_string(), "/s".to_string()),
                ("TMPDIRS".to_string(), "x".to_string()),
            ]
        );
    }
}

#[test]
fn only_ascii_letters_are_compared_without_case() {
    // The capital I with a dot above is not ASCII.
    let mut env = env_of(&[("TMPD\u{0130}R", "kept"), ("tMpDiR", "dropped")]);
    env.point_at("/s", WINDOWS);
    assert!(env.contains_key("TMPD\u{0130}R"));
    assert!(!env.contains_key("tMpDiR"));
    assert_eq!(env.into_entries().len(), 4);
}

#[test]
fn the_last_scratch_dir_wins() {
    let mut env = env_of(&[("tmp", "a")]);
    env.point_at("/first", WINDOWS);
    env.point_at("/second", WINDOWS);
    for key in TEMP_ENV_KEYS {
        assert_eq!(env.get(key).map(String::as_str), Some("/second"));
    }
    assert_eq!(env.into_entries().len(), 3);
}

#[test]
fn variables_are_unique_and_in_ascending_order() {
    let env = env_of(&[("b", "1"), ("a", "2"), ("ab", "3"), ("b", "4"), ("B", "5"), ("é", "6")]);
    assert_eq!(env.get("b").map(String::as_str), Some("4"));
    assert_eq!(env.get("c"), None);
    let names: Vec<String> = env.into_entries().into_iter().map(|(key, _)| key).collect();
    assert_eq!(names, vec!["B", "a", "ab", "b", "é"]);
}

#[test]
fn isolation_is_on_unless_switched_off_by_zero() {
    assert!(!isolation_enabled(Some("0")));
    for on in ["", "1", "false", "FALSE", "False", "off", "OFF", "no", "00", " 0", "0 "] {
        assert!(isolation_enabled(Some(on)), "{on}");
    }
    assert!(isolation_enabled(None));
}

#[test]
fn the_root_is_the_namespace_under_the_override_or_the_temp_dir() {
    assert_eq!(SCRATCH_NAMESPACE, "codeg-acp");
    let temp = || PathBuf::from("/tmp");
    assert_eq!(scratch_root(None, temp()), PathBuf::from("/tmp/codeg-acp"));
    assert_eq!(scratch_root(Some(PathBuf::new()), temp()), PathBuf::from("/tmp/codeg-acp"));
    assert_eq!(
        scratch_root(Some(PathBuf::from("/vol")), temp()),
        PathBuf::from("/vol/codeg-acp")
    );
}
