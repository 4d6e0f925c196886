//! Configuration, from environment variables with defaults.

use vstd::prelude::*;

use crate::text;

verus! {

/// The sample rate that the recognizer expects.
pub const TARGET_SAMPLE_RATE: u32 = 16_000;

/// The silence that ends an utterance, unless it is set.
pub const DEFAULT_SILENCE_MS: u64 = 700;

/// The variables that configuration is read from, each absent where it is not set.
pub struct Vars {
    /// `MATALU_BIND`.
    pub bind: Option<String>,
    /// `MATALU_PYTHON`.
    pub python: Option<String>,
    /// `MATALU_SIDECAR`.
    pub sidecar: Option<String>,
    /// `MATALU_SIDECAR_BIN`.
    pub sidecar_bin: Option<String>,
    /// `MATALU_MLX_MODEL`.
    pub mlx_model: Option<String>,
    /// `MATALU_SILENCE_MS`.
    pub silence_ms: Option<String>,
}

/// Runtime configuration.
#[derive(Clone, Debug)]
pub struct Config {
    /// The address that the server binds to.
    pub bind_addr: String,
    /// The interpreter that runs the sidecar.
    pub python_bin: String,
    /// The sidecar's script.
    pub sidecar_script: String,
    /// A self-contained sidecar. If there is one it is run directly, and the
    /// interpreter and the script are not used.
    pub sidecar_bin: Option<String>,
    /// The model that the sidecar loads.
    pub mlx_model: String,
    /// The silence that ends an utterance.
    pub silence_ms: u64,
    /// The level below which sound is silence, in the form handed to the sidecar.
    pub vad_rms_threshold: String,
}

/// A setting, or the default where it is absent.
pub open spec fn or_default(value: Option<Seq<char>>, default: Seq<char>) -> Seq<char> {
    match value {
        Some(v) => v,
        None => default,
    }
}

/// A number from a setting, or the default where it is absent or no number.
pub open spec fn number_or(value: Option<Seq<char>>, default: u64) -> u64 {
    match value {
        Some(v) => match text::parsed_u64(v) {
            Some(n) => n,
            None => default,
        },
        None => default,
    }
}

/// A setting that counts as absent where it is empty.
pub open spec fn unless_empty(value: Option<Seq<char>>) -> Option<Seq<char>> {
    match value {
        Some(v) => if v.len() == 0 {
            None
        } else {
            value
        },
        None => None,
    }
}

/// A setting, or the default where it is absent.
pub fn env_str(value: Option<String>, default: &str) -> (r: String)
    ensures
        r@ == or_default(text::opt_text(value), default@),
{
    match value {
        Some(v) => v,
        None => default.to_owned(),
    }
}

/// A number from a setting, or the default where it is absent or no number.
pub fn env_or(value: Option<String>, default: u64) -> (r: u64)
    ensures
        r == number_or(text::opt_text(value), default),
{
    match value {
        Some(v) => match text::parse_u64(v.as_str()) {
            Some(n) => n,
            None => default,
        },
        None => default,
    }
}

/// How the sidecar is started.
pub struct SidecarCommand {
    pub program: String,
    pub args: Vec<String>,
    /// Variables set for it, by name and value.
    pub env: Vec<(String, String)>,
}

impl Config {
    /// Configuration from the variables that are set. `vad_rms_threshold` is the
    /// level below which sound is silence, already in the form handed to the
    /// sidecar.
    pub fn from_env(vars: Vars, vad_rms_threshold: String) -> (r: Self)
        ensures
            r.bind_addr@ == or_default(text::opt_text(vars.bind), "127.0.0.1:8765"@),
            r.python_bin@ == or_default(text::opt_text(vars.python), "python3"@),
            r.sidecar_script@ == or_default(
                text::opt_text(vars.sidecar),
                "sidecar/matalu_sidecar.py"@,
            ),
            text::opt_text(r.sidecar_bin) == unless_empty(text::opt_text(vars.sidecar_bin)),
            r.mlx_model@ == or_default(
                text::opt_text(vars.mlx_model),
                "mlx-community/parakeet-tdt-0.6b-v2"@,
            ),
            r.silence_ms == number_or(text::opt_text(vars.silence_ms), DEFAULT_SILENCE_MS),
            r.vad_rms_threshold@ == vad_rms_threshold@,
    {
        let sidecar_bin = match vars.sidecar_bin {
            Some(bin) => if bin.as_str().unicode_len() == 0 {
                None
            } else {
                Some(bin)
            },
            None => None,
        };
        Config {
            bind_addr: env_str(vars.bind, "127.0.0.1:8765"),
            python_bin: env_str(vars.python, "python3"),
            sidecar_script: env_str(vars.sidecar, "sidecar/matalu_sidecar.py"),
            sidecar_bin,
            mlx_model: env_str(vars.mlx_model, "mlx-community/parakeet-tdt-0.6b-v2"),
            silence_ms: env_or(vars.silence_ms, DEFAULT_SILENCE_MS),
            vad_rms_threshold,
        }
    }

    /// Settles which sidecar is run. Where none is named, neither as an executable
    /// nor, with `pinned`, as a script, it is the one bundled with the app, or
    /// without a bundle the script at `dev_script`.
    pub fn resolve_sidecar(&mut self, pinned: bool, bundled: Option<String>, dev_script: String)
        ensures
            text::opt_text(final(self).sidecar_bin) == if old(self).sidecar_bin is None && !pinned {
                text::opt_text(bundled)
            } else {
                text::opt_text(old(self).sidecar_bin)
            },
            final(self).sidecar_script@ == if old(self).sidecar_bin is None && !pinned
                && bundled is None {
                dev_script@
            } else {
                old(self).sidecar_script@
            },
            final(self).bind_addr@ == old(self).bind_addr@,
            final(self).python_bin@ == old(self).python_bin@,
            final(self).mlx_model@ == old(self).mlx_model@,
            final(self).silence_ms == old(self).silence_ms,
            final(self).vad_rms_threshold@ == old(self).vad_rms_threshold@,
    {
        if self.sidecar_bin.is_none() && !pinned {
            match bundled {
                Some(bin) => self.sidecar_bin = Some(bin),
                None => self.sidecar_script = dev_script,
            }
        }
    }

    /// How the sidecar is started: directly where it is self-contained, else by
    /// the interpreter, and either way told the model, the silence that ends an
    /// utterance, and the level of silence.
    pub fn sidecar_command(&self) -> (r: SidecarCommand)
        ensures
            r.program@ == or_default(text::opt_text(self.sidecar_bin), self.python_bin@),
            text::texts(r.args@) == match self.sidecar_bin {
                Some(_) => Seq::empty(),
                None => seq![self.sidecar_script@],
            },
            r.env@.len() == 3,
            r.env@[0].0@ == "MATALU_MLX_MODEL"@ && r.env@[0].1@ == self.mlx_model@,
            r.env@[1].0@ == "MATALU_SILENCE_MS"@ && r.env@[1].1@ == text::decimal(
                self.silence_ms as nat,
            ),
            r.env@[2].0@ == "MATALU_VAD_RMS"@ && r.env@[2].1@ == self.vad_rms_threshold@,
    {
        let mut args: Vec<String> = Vec::new();
        let program = match &self.sidecar_bin {
            Some(bin) => bin.clone(),
            None => {
                args.push(self.sidecar_script.clone());
                self.python_bin.clone()
            },
        };
        assert(text::texts(args@) =~= match self.sidecar_bin {
            Some(_) => Seq::empty(),
            None => seq![self.sidecar_script@],
        });
        let mut env: Vec<(String, String)> = Vec::new();
        env.push(("MATALU_MLX_MODEL".to_owned(), self.mlx_model.clone()));
        env.push(("MATALU_SILENCE_MS".to_owned(), text::to_decimal(self.silence_ms)));
        env.push(("MATALU_VAD_RMS".to_owned(), self.vad_rms_threshold.clone()));
        SidecarCommand { program, args, env }
    }
}

/// The bundled executable at `candidate`, if the app runs from a package and the
/// file is there. Elsewhere a file of that name is only a stand-in that the build
/// left behind.
pub fn bundled_binary(dir_name: Option<&str>, candidate: String, present: bool) -> (r: Option<
    String,
>)
    ensures
        text::opt_text(r) == if text::opt_str(dir_name) == Some("MacOS"@) && present {
            Some(candidate@)
        } else {
            None
        },
{
    match dir_name {
        Some(name) => if text::same_text(name, "MacOS") && present {
            Some(candidate)
        } else {
            None
        },
        None => None,
    }
}

/// A setting that is there is taken as it is, and one that is not is the default.
pub proof fn law_settings_win_over_defaults(
    v: String,
    default: &str,
    set: String,
    unset: String,
    n: u64,
    number: u64,
    none: u64,
)
    requires
        call_ensures(env_str, (Some(v), default), set),
        call_ensures(env_str, (None::<String>, default), unset),
        call_ensures(env_or, (Some(v), n), number),
        call_ensures(env_or, (None::<String>, n), none),
    ensures
        set@ == v@,
        unset@ == default@,
        text::parsed_u64(v@) is Some ==> number == text::parsed_u64(v@)->0,
        text::parsed_u64(v@) is None ==> number == n,
        none == n,
{
}

/// Each variable sets what it is for. Without them the server is bound to port 8765 of
/// this machine, `python3` runs the script in the sidecar directory with the small
/// model, and seven hundred milliseconds of silence end an utterance. An executable that
/// is named by nothing is none.
pub proof fn law_variables_set_what_they_are_for(
    vars: Vars,
    vad_rms_threshold: String,
    r: Config,
)
    requires
        call_ensures(Config::from_env, (vars, vad_rms_threshold), r),
    ensures
        vars.bind is Some ==> r.bind_addr@ == vars.bind->0@,
        vars.bind is None ==> r.bind_addr@ == "127.0.0.1:8765"@,
        vars.python is Some ==> r.python_bin@ == vars.python->0@,
        vars.python is None ==> r.python_bin@ == "python3"@,
        vars.sidecar is Some ==> r.sidecar_script@ == vars.sidecar->0@,
        vars.sidecar is None ==> r.sidecar_script@ == "sidecar/matalu_sidecar.py"@,
        r.sidecar_bin is Some <==> vars.sidecar_bin is Some && vars.sidecar_bin->0@.len() > 0,
        r.sidecar_bin is Some ==> r.sidecar_bin->0@ == vars.sidecar_bin->0@,
        vars.mlx_model is Some ==> r.mlx_model@ == vars.mlx_model->0@,
        vars.mlx_model is None ==> r.mlx_model@ == "mlx-community/parakeet-tdt-0.6b-v2"@,
        vars.silence_ms is None ==> r.silence_ms == 700,
        vars.silence_ms is Some && text::parsed_u64(vars.silence_ms->0@) is None ==> r.silence_ms
            == 700,
        vars.silence_ms is Some && text::parsed_u64(vars.silence_ms->0@) is Some ==> r.silence_ms
            == text::parsed_u64(vars.silence_ms->0@)->0,
        r.vad_rms_threshold@ == vad_rms_threshold@,
{
}

/// A sidecar that is named is run: the executable, or the script that is pinned. Else the
/// bundled one is, or without a bundle the script for development. Nothing else changes.
pub proof fn law_named_sidecar_is_run(
    k: &mut Config,
    pinned: bool,
    bundled: Option<String>,
    dev_script: String,
)
    requires
        call_ensures(Config::resolve_sidecar, (k, pinned, bundled, dev_script), ()),
    ensures
        old(k).sidecar_bin is Some ==> final(k).sidecar_bin is Some && final(k).sidecar_bin->0@
            == old(k).sidecar_bin->0@ && final(k).sidecar_script@ == old(k).sidecar_script@,
        old(k).sidecar_bin is None && pinned ==> final(k).sidecar_bin is None
            && final(k).sidecar_script@ == old(k).sidecar_script@,
        old(k).sidecar_bin is None && !pinned && bundled is Some ==> final(k).sidecar_bin is Some
            && final(k).sidecar_bin->0@ == bundled->0@ && final(k).sidecar_script@ == old(
            k,
        ).sidecar_script@,
        old(k).sidecar_bin is None && !pinned && bundled is None ==> final(k).sidecar_bin is None
            && final(k).sidecar_script@ == dev_script@,
        final(k).bind_addr@ == old(k).bind_addr@,
        final(k).python_bin@ == old(k).python_bin@,
        final(k).mlx_model@ == old(k).mlx_model@,
        final(k).silence_ms == old(k).silence_ms,
        final(k).vad_rms_threshold@ == old(k).vad_rms_threshold@,
{
}

/// An executable sidecar is started by itself and a script by the interpreter. Either is
/// told the model, the silence in a number that reads back as it is, and the level.
pub proof fn law_sidecar_is_told_the_configuration(c: &Config, r: SidecarCommand, ms: String)
    requires
        call_ensures(Config::sidecar_command, (c,), r),
        call_ensures(text::to_decimal, (c.silence_ms,), ms),
    ensures
        c.sidecar_bin is Some ==> r.program@ == c.sidecar_bin->0@ && r.args@.len() == 0,
        c.sidecar_bin is None ==> r.program@ == c.python_bin@ && r.args@.len() == 1 && r.args@[0]@
            == c.sidecar_script@,
        r.env@.len() == 3,
        r.env@[0].0@ == "MATALU_MLX_MODEL"@ && r.env@[0].1@ == c.mlx_model@,
        r.env@[1].0@ == "MATALU_SILENCE_MS"@,
        r.env@[1].1@ == ms@,
        text::parsed_u64(r.env@[1].1@) == Some(c.silence_ms),
        r.env@[2].0@ == "MATALU_VAD_RMS"@ && r.env@[2].1@ == c.vad_rms_threshold@,
{
    text::law_number_reads_back(c.silence_ms);
    assert(text::texts(r.args@).len() == r.args@.len());
    if c.sidecar_bin is None {
        assert(text::texts(r.args@)[0] == r.args@[0]@);
    }
}

/// A bundled executable counts only inside a package, and only if it is there.
pub proof fn law_bundled_binary_is_in_a_package(
    dir_name: Option<&str>,
    candidate: String,
    present: bool,
    r: Option<String>,
)
    requires
        call_ensures(bundled_binary, (dir_name, candidate, present), r),
    ensures
        r is Some <==> present && dir_name is Some && dir_name->0@ == "MacOS"@,
        r is Some ==> r->0@ == candidate@,
{
}

}
