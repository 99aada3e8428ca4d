//! Preparing a child process that receives secrets as environment variables.
//! The process is spawned and awaited by the application; this module checks
//! the secrets can be passed as environment values and composes the command line.
use vstd::prelude::*;
use vstd::string::*;
use vstd::utf8::*;

use crate::error::{Error, Result};
use crate::secret_value::SecretValue;

verus! {

/// Inputs for a single run.
pub struct RunnerConfig {
    /// Resolved binary to exec (e.g. `/opt/homebrew/bin/cargo`).
    pub binary_path: String,
    /// Arguments after the binary.
    pub args: Vec<String>,
    /// Secret env vars to inject into the child. Order is preserved; later
    /// entries overwrite earlier ones if names collide.
    pub secret_env: Vec<(String, SecretValue)>,
    /// A `sandbox-exec` profile to run the child under, if any.
    pub sandbox_profile: Option<String>,
}

/// Result of a child process run.
#[derive(Debug, Clone, Copy)]
pub struct ChildOutcome {
    /// Exit code of the child, or `None` if it was killed by a signal.
    pub exit_code: Option<i32>,
    /// Wall-clock duration in milliseconds.
    pub duration_ms: i64,
}

/// The name of the first secret, in order, whose bytes are not UTF-8.
pub open spec fn first_non_utf8_secret(env: Seq<(String, SecretValue)>) -> Option<Seq<char>>
    decreases env.len(),
{
    if env.len() == 0 {
        None
    } else if !valid_utf8(env[0].1@) {
        Some(env[0].0@)
    } else {
        first_non_utf8_secret(env.drop_first())
    }
}

pub open spec fn non_utf8_secret_text(key: Seq<char>) -> Seq<char> {
    "secret for "@ + key
        + " contains non-UTF-8 bytes; binary secrets are not yet supported as env vars"@
}

/// Environment values must be text: refuse the first secret that is not UTF-8.
pub fn check_secret_env(env: &Vec<(String, SecretValue)>) -> (r: Result<()>)
    ensures
        match first_non_utf8_secret(env@) {
            None => r is Ok,
            Some(k) => r matches Err(Error::Invalid(m)) && m@ == non_utf8_secret_text(k),
        },
{
    let mut i: usize = 0;
    assert(env@.skip(0) =~= env@);
    while i < env.len()
        invariant
            i <= env@.len(),
            first_non_utf8_secret(env@) == first_non_utf8_secret(env@.skip(i as int)),
        decreases env.len() - i,
    {
        assert(env@.skip(i as int)[0] == env@[i as int]);
        assert(env@.skip(i as int).drop_first() =~= env@.skip(i + 1));
        match env[i].1.to_utf8() {
            Some(_) => {},
            None => {
                let mut m = String::new();
                m.append("secret for ");
                m.append(env[i].0.as_str());
                m.append(" contains non-UTF-8 bytes; binary secrets are not yet supported as env vars");
                assert(m@ =~= non_utf8_secret_text(env@[i as int].0@));
                return Err(Error::Invalid(m));
            },
        }
        i = i + 1;
    }
    assert(env@.skip(env@.len() as int) =~= Seq::<(String, SecretValue)>::empty());
    Ok(())
}

/// The program and arguments to execute: the binary itself, or
/// `/usr/bin/sandbox-exec -p <profile> <binary> <args...>` under a sandbox.
pub fn command_line(config: &RunnerConfig) -> (c: (String, Vec<String>))
    ensures
        config.sandbox_profile is None ==> c.0@ == config.binary_path@ && c.1@ == config.args@,
        config.sandbox_profile matches Some(p) ==> (c.0@ == "/usr/bin/sandbox-exec"@
            && crate::text::views(c.1@) == seq!["-p"@, p@, config.binary_path@]
            + crate::text::views(config.args@)),
{
    match &config.sandbox_profile {
        None => (config.binary_path.clone(), crate::binary::clone_strings(&config.args)),
        Some(p) => {
            let mut args: Vec<String> = Vec::new();
            args.push("-p".to_owned());
            args.push(p.clone());
            args.push(config.binary_path.clone());
            let mut i: usize = 0;
            while i < config.args.len()
                invariant
                    i <= config.args@.len(),
                    crate::text::views(args@) == seq!["-p"@, p@, config.binary_path@]
                        + crate::text::views(config.args@.take(i as int)),
                decreases config.args.len() - i,
            {
                let ghost before = crate::text::views(args@);
                args.push(config.args[i].clone());
                assert(crate::text::views(args@) =~= before.push(config.args@[i as int]@));
                assert(crate::text::views(config.args@.take(i + 1)) =~= crate::text::views(
                    config.args@.take(i as int),
                ).push(config.args@[i as int]@));
                assert(crate::text::views(args@) =~= seq!["-p"@, p@, config.binary_path@]
                    + crate::text::views(config.args@.take(i + 1)));
                i = i + 1;
            }
            assert(config.args@.take(config.args@.len() as int) =~= config.args@);
            ("/usr/bin/sandbox-exec".to_owned(), args)
        },
    }
}

} // verus!
