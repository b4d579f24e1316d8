//! Choosing the run mode and the files to load.
//!
//! The effective run mode is the `RUN_MODE` environment value when it is
//! set and non-empty, else the command-line value when set and non-empty,
//! else a failure.  Planning performs no filesystem access: a missing or
//! empty config directory is rejected before any file would be read.

use vstd::prelude::*;

verus! {

use vstd::string::StringExecFns;
use crate::settings::{Error, ErrorKind};

/// The files one resolution will read, and the chosen run mode.
#[derive(Debug, PartialEq, Eq)]
pub struct LoadPlan {
    pub run_mode: String,
    pub default_path: String,
    pub run_mode_path: String,
    pub mappings_path: String,
    pub settings_path: String,
}

pub struct LoadPlanV {
    pub run_mode: Seq<char>,
    pub default_path: Seq<char>,
    pub run_mode_path: Seq<char>,
    pub mappings_path: Seq<char>,
    pub settings_path: Seq<char>,
}

impl View for LoadPlan {
    type V = LoadPlanV;

    open spec fn view(&self) -> LoadPlanV {
        LoadPlanV {
            run_mode: self.run_mode@,
            default_path: self.default_path@,
            run_mode_path: self.run_mode_path@,
            mappings_path: self.mappings_path@,
            settings_path: self.settings_path@,
        }
    }
}

pub open spec fn opt_str_view(o: Option<&str>) -> Option<Seq<char>> {
    match o {
        Some(s) => Some(s@),
        None => None,
    }
}

pub open spec fn arg_mode(arg: Option<Seq<char>>) -> Option<Seq<char>> {
    match arg {
        Some(a) => if a.len() > 0 {
            Some(a)
        } else {
            None
        },
        None => None,
    }
}

/// The effective run mode: the environment value when set and non-empty,
/// else the command-line value when set and non-empty.
pub open spec fn effective_mode(env: Option<Seq<char>>, arg: Option<Seq<char>>) -> Option<
    Seq<char>,
> {
    match env {
        Some(e) => if e.len() > 0 {
            Some(e)
        } else {
            arg_mode(arg)
        },
        None => arg_mode(arg),
    }
}

/// A set, non-empty environment run mode wins over any command-line value.
pub proof fn lemma_env_mode_wins(env: Seq<char>, arg: Option<Seq<char>>)
    requires
        env.len() > 0,
    ensures
        effective_mode(Some(env), arg) == Some(env),
{
}

/// What planning returns: the run mode and the four file paths, or the
/// first failure.
pub open spec fn plan_spec(
    config_dir: Option<Seq<char>>,
    env: Option<Seq<char>>,
    arg: Option<Seq<char>>,
) -> Result<LoadPlanV, ErrorKind> {
    match config_dir {
        None => Err(ErrorKind::ArgMissing),
        Some(dir) => if dir.len() == 0 {
            Err(ErrorKind::ArgMissing)
        } else {
            match effective_mode(env, arg) {
                None => Err(ErrorKind::MissingRunMode),
                Some(m) => Ok(
                    LoadPlanV {
                        run_mode: m,
                        default_path: dir + "/default.toml"@,
                        run_mode_path: dir + "/"@ + m + ".toml"@,
                        mappings_path: dir + "/elasticsearch/mappings.json"@,
                        settings_path: dir + "/elasticsearch/settings.json"@,
                    },
                ),
            }
        },
    }
}

/// A missing or empty config directory is rejected outright, before any
/// file would be read.
pub proof fn lemma_missing_config_dir(
    config_dir: Option<Seq<char>>,
    env: Option<Seq<char>>,
    arg: Option<Seq<char>>,
)
    requires
        config_dir is None || (config_dir matches Some(d) && d.len() == 0),
    ensures
        plan_spec(config_dir, env, arg) == Err::<LoadPlanV, ErrorKind>(ErrorKind::ArgMissing),
{
}

fn concat2(a: &str, b: &str) -> (r: String)
    ensures
        r@ == a@ + b@,
{
    let mut s = a.to_owned();
    s.append(b);
    s
}

/// Choose the run mode and name the files a resolution will read.
/// Performs no filesystem access.
pub fn plan(config_dir: Option<&str>, env_run_mode: Option<&str>, run_mode_arg: Option<&str>) -> (r:
    Result<LoadPlan, Error>)
    ensures
        match r {
            Ok(p) => plan_spec(
                opt_str_view(config_dir),
                opt_str_view(env_run_mode),
                opt_str_view(run_mode_arg),
            ) == Ok::<LoadPlanV, ErrorKind>(p@),
            Err(e) => plan_spec(
                opt_str_view(config_dir),
                opt_str_view(env_run_mode),
                opt_str_view(run_mode_arg),
            ) == Err::<LoadPlanV, ErrorKind>(e.kind()),
        },
{
    let dir = match config_dir {
        Some(d) => d,
        None => {
            return Err(
                Error::ArgMissing {
                    msg: "missing config directory: use -c to name one".to_owned(),
                },
            );
        },
    };
    if dir.is_empty() {
        return Err(
            Error::ArgMissing { msg: "missing config directory: use -c to name one".to_owned() },
        );
    }
    let mode_opt: Option<&str> = match env_run_mode {
        Some(e) => if e.is_empty() {
            run_mode_arg
        } else {
            Some(e)
        },
        None => run_mode_arg,
    };
    let mode = match mode_opt {
        Some(m) => if m.is_empty() {
            None
        } else {
            Some(m)
        },
        None => None,
    };
    let mode = match mode {
        Some(m) => m,
        None => {
            return Err(
                Error::MissingRunMode {
                    msg: "missing run mode: set RUN_MODE or use -m to name one".to_owned(),
                },
            );
        },
    };
    let run_mode_path = concat2(concat2(dir, "/").as_str(), concat2(mode, ".toml").as_str());
    proof {
        assert(run_mode_path@ =~= opt_str_view(config_dir).unwrap() + "/"@ + mode@ + ".toml"@);
    }
    Ok(
        LoadPlan {
            run_mode: mode.to_owned(),
            default_path: concat2(dir, "/default.toml"),
            run_mode_path,
            mappings_path: concat2(dir, "/elasticsearch/mappings.json"),
            settings_path: concat2(dir, "/elasticsearch/settings.json"),
        },
    )
}

} // verus!
