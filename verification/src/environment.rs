//! The environment that processes are started with.
use vstd::prelude::*;

use crate::models::Duplicate;
use crate::platform::{unix, windows, Platform};
use crate::text::joined;
use crate::text_map::TextMap;

verus! {

/// The variables of the orchestrator's own environment that matter to the processes it starts.
#[derive(Debug, PartialEq)]
pub struct Surroundings {
    pub path: Option<String>,
    pub home: Option<String>,
    pub user_profile: Option<String>,
    pub local_app_data: Option<String>,
}

/// The model of [`Surroundings`].
#[verifier::ext_equal]
pub struct SurroundingsView {
    pub path: Option<Seq<char>>,
    pub home: Option<Seq<char>>,
    pub user_profile: Option<Seq<char>>,
    pub local_app_data: Option<Seq<char>>,
}

impl DeepView for Surroundings {
    type V = SurroundingsView;

    open spec fn deep_view(&self) -> SurroundingsView {
        SurroundingsView {
            path: self.path.deep_view(),
            home: self.home.deep_view(),
            user_profile: self.user_profile.deep_view(),
            local_app_data: self.local_app_data.deep_view(),
        }
    }
}

impl Duplicate for Surroundings {
    fn duplicate(&self) -> (r: Self) {
        Surroundings {
            path: self.path.duplicate(),
            home: self.home.duplicate(),
            user_profile: self.user_profile.duplicate(),
            local_app_data: self.local_app_data.duplicate(),
        }
    }
}

impl SurroundingsView {
    /// The home directory.
    pub open spec fn home_directory(self) -> Option<Seq<char>> {
        if self.home is Some {
            self.home
        } else {
            self.user_profile
        }
    }

    /// The folders that a process finds programs in where its own environment names none.
    pub open spec fn default_path(self, platform: Platform) -> Seq<char> {
        match platform {
            Platform::Unix => unix::default_path(self.path, self.home_directory()),
            Platform::Windows => joined(
                windows::deduped(
                    windows::default_paths(
                        self.path,
                        self.home_directory(),
                        self.local_app_data,
                    ),
                ),
                seq![';'],
            ),
        }
    }
}

/// The environment of a process: its own, with a `PATH` where it has none.
pub open spec fn effective_env(
    process_env: Map<Seq<char>, Seq<char>>,
    platform: Platform,
    surroundings: SurroundingsView,
) -> Map<Seq<char>, Seq<char>> {
    if process_env.contains_key("PATH"@) {
        process_env
    } else {
        process_env.insert("PATH"@, surroundings.default_path(platform))
    }
}

/// The environment of a process: its own, with a `PATH` where it has none.
pub fn effective_process_env(
    process_env: &TextMap<String>,
    platform: Platform,
    surroundings: &Surroundings,
) -> (r: TextMap<String>)
    ensures
        r.deep_view() == effective_env(
            process_env.deep_view(),
            platform,
            surroundings.deep_view(),
        ),
{
    let mut env = process_env.duplicate();
    if !env.contains_key("PATH") {
        let home = if surroundings.home.is_some() {
            surroundings.home.duplicate()
        } else {
            surroundings.user_profile.duplicate()
        };
        let inherited = surroundings.path.duplicate();
        let path = match platform {
            Platform::Unix => unix::default_process_path(inherited, home),
            Platform::Windows => windows::default_process_path(
                inherited,
                home,
                surroundings.local_app_data.duplicate(),
            ),
        };
        env.insert("PATH".to_string(), path);
    }
    env
}

/// A process keeps every variable of its own, its `PATH` among them, and always has a `PATH`.
pub proof fn law_own_variables_are_kept(
    process_env: Map<Seq<char>, Seq<char>>,
    platform: Platform,
    surroundings: SurroundingsView,
    name: Seq<char>,
)
    ensures
        process_env.contains_key(name) ==> effective_env(
            process_env,
            platform,
            surroundings,
        ).contains_key(name) && effective_env(process_env, platform, surroundings)[name]
            == process_env[name],
        effective_env(process_env, platform, surroundings).contains_key("PATH"@),
        effective_env(process_env, platform, surroundings).contains_key(name) ==> name == "PATH"@
            || process_env.contains_key(name),
{
}

} // verus!
