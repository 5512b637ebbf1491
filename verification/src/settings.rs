//! The two environment variables that steer isolation, as values.

use std::path::PathBuf;

use vstd::prelude::*;

use crate::paths;
use crate::text;

verus! {

/// Directory under the temp root that this library owns outright. Every sweep
/// is confined to this subtree, which is what makes it safe to delete without
/// asking: the temp directory itself is a namespace shared with every other
/// application, but nothing else writes here.
pub const SCRATCH_NAMESPACE: &'static str = "codeg-acp";

/// Opts out of isolation entirely and lets the child inherit the ambient
/// `TMP`/`TEMP`/`TMPDIR`. Escape hatch for an agent that turns out to depend on
/// a shared temp directory.
pub const ISOLATION_ENV: &'static str = "CODEG_ACP_TMP_ISOLATION";

/// Overrides the scratch root, to place the (potentially very large) extraction
/// churn on a different volume.
pub const ROOT_ENV: &'static str = "CODEG_ACP_TMP_ROOT";

/// The value of [`ISOLATION_ENV`] that switches isolation off.
pub open spec fn switches_isolation_off(value: Seq<char>) -> bool {
    value == "0"@
}

/// Whether launches get an isolated temp directory: on unless explicitly disabled
/// by a `value` of `0`, which is what [`ISOLATION_ENV`] is set to. `None` stands
/// for a variable that is unset or not Unicode.
pub fn isolation_enabled(value: Option<&str>) -> (enabled: bool)
    ensures
        enabled == !(value is Some && switches_isolation_off(value->0@)),
{
    match value {
        None => true,
        Some(v) => !text::same_text(v, "0"),
    }
}

/// The directory that the scratch root is placed under: the override, unless it
/// is absent or empty, and else the system temp directory.
pub open spec fn root_base(override_root: Option<PathBuf>, temp_dir: PathBuf) -> PathBuf {
    match override_root {
        Some(path) => if paths::os_bytes(path).len() > 0 {
            path
        } else {
            temp_dir
        },
        None => temp_dir,
    }
}

/// The single directory under which every per-launch scratch dir is created,
/// from the value of [`ROOT_ENV`] and the system temp directory.
///
/// Deliberately ONE root, not one per agent configuration: roots that follow a
/// per-agent setting are not discoverable by a crash sweep (change the setting,
/// crash, and the old root keeps its gigabytes forever).
pub fn scratch_root(override_root: Option<PathBuf>, temp_dir: PathBuf) -> (root: PathBuf)
    ensures
        paths::is_join(
            paths::os_bytes(root_base(override_root, temp_dir)),
            SCRATCH_NAMESPACE@,
            paths::os_bytes(root),
        ),
        paths::ends_in_name(paths::os_bytes(root), SCRATCH_NAMESPACE@),
        !paths::is_verbatim(paths::os_bytes(root_base(override_root, temp_dir)))
            ==> paths::is_direct_child(
            paths::os_bytes(root_base(override_root, temp_dir)),
            SCRATCH_NAMESPACE@,
            paths::os_bytes(root),
        ),
{
    proof {
        reveal_strlit("codeg-acp");
        assert(paths::is_plain_name(SCRATCH_NAMESPACE@));
    }
    let base = match override_root {
        Some(path) => {
            if paths::to_string_lossy(&path).as_str().is_empty() {
                temp_dir
            } else {
                path
            }
        },
        None => temp_dir,
    };
    let root = paths::join(&base, SCRATCH_NAMESPACE);
    proof {
        if !paths::is_verbatim(paths::os_bytes(base)) {
            paths::lemma_direct_child(
                paths::os_bytes(base),
                SCRATCH_NAMESPACE@,
                paths::os_bytes(root),
            );
        }
    }
    root
}

/// Isolation is off for the one-character text `0`, and on for every other value
/// and for none.
pub proof fn law_only_zero_switches_isolation_off(value: Option<&str>, enabled: bool)
    requires
        call_ensures(isolation_enabled, (value,), enabled),
    ensures
        value is None ==> enabled,
        value matches Some(v) ==> (enabled <==> !(v@.len() == 1 && v@[0] == '0')),
{
    reveal_strlit("0");
    if value is Some && value->0@.len() == 1 && value->0@[0] == '0' {
        assert(value->0@ =~= "0"@);
    }
}

/// The scratch root is `codeg-acp` joined to the override where that holds
/// anything, and to the system temp directory otherwise.
pub proof fn law_the_root_is_under_the_override_or_the_temp_dir(
    override_root: Option<PathBuf>,
    temp_dir: PathBuf,
    root: PathBuf,
)
    requires
        call_ensures(scratch_root, (override_root, temp_dir), root),
    ensures
        override_root is None ==> paths::os_bytes(root) == paths::joined(
            paths::os_bytes(temp_dir),
            "codeg-acp"@,
        ),
        override_root matches Some(path) ==> paths::os_bytes(root) == paths::joined(
            if paths::os_bytes(path).len() == 0 {
                paths::os_bytes(temp_dir)
            } else {
                paths::os_bytes(path)
            },
            "codeg-acp"@,
        ),
{
}

} // verus!
