use vstd::prelude::*;

use crate::error::{Error, Result};
use crate::audit::CloseRun;
use crate::manifest::{var_names, Manifest, VarSpec};
use crate::runner::ChildOutcome;
use crate::secret_value::SecretValue;
use crate::vault::{exact, Contents, Vault};

verus! {

/// The binary a run executes, as resolved and verified.
#[derive(Debug, Clone)]
pub struct ResolvedBinary {
    pub path: String,
    pub argv: Vec<String>,
}

/// The declared variables present in the vault, in declaration order.
pub open spec fn loaded_names(c: Contents, namespace: Seq<char>, vars: Seq<(String, VarSpec)>) -> Seq<
    Seq<char>,
>
    decreases vars.len(),
{
    if vars.len() == 0 {
        Seq::empty()
    } else {
        let rest = loaded_names(c, namespace, vars.drop_last());
        if c.contains_key((namespace, vars.last().0@)) {
            rest.push(vars.last().0@)
        } else {
            rest
        }
    }
}

/// What one declared variable's read means for a run.
pub enum LoadStep {
    /// The secret was read: pass it to the child.
    Load(SecretValue),
    /// An optional variable is not stored: leave it out.
    Skip,
    /// The run stops with this error.
    Fail(Error),
}

/// The decision for one declared variable, given what reading it gave: a
/// value read is loaded; `NotFound` on an optional variable is skipped; any
/// other error, and `NotFound` on a required variable, stops the run with
/// that error.
pub fn load_decision(required: bool, read: Result<SecretValue>) -> (d: LoadStep)
    ensures
        read matches Ok(v) ==> d == LoadStep::Load(v),
        read matches Err(e) ==> if e is NotFound && !required {
            d is Skip
        } else {
            d == LoadStep::Fail(e)
        },
{
    match read {
        Ok(v) => LoadStep::Load(v),
        Err(Error::NotFound { namespace, var }) => {
            if required {
                LoadStep::Fail(Error::NotFound { namespace, var })
            } else {
                LoadStep::Skip
            }
        },
        Err(e) => LoadStep::Fail(e),
    }
}

/// Whether a required variable is missing, given what reading it gave: a
/// value read means present, `NotFound` means missing, and any other error
/// is returned.
pub fn missing_decision(read: Result<SecretValue>) -> (r: Result<bool>)
    ensures
        read is Ok ==> r == Ok::<bool, Error>(false),
        read matches Err(e) ==> if e is NotFound {
            r == Ok::<bool, Error>(true)
        } else {
            r == Err::<bool, Error>(e)
        },
{
    match read {
        Ok(_) => Ok(false),
        Err(Error::NotFound { .. }) => Ok(true),
        Err(e) => Err(e),
    }
}

/// `sub` is `all` with some elements left out: its elements occur in `all`
/// in the same order.
pub open spec fn in_order_of(sub: Seq<Seq<char>>, all: Seq<Seq<char>>) -> bool
    decreases all.len(),
{
    if sub.len() == 0 {
        true
    } else if all.len() == 0 {
        false
    } else {
        (sub.last() == all.last() && in_order_of(sub.drop_last(), all.drop_last())) || in_order_of(
            sub,
            all.drop_last(),
        )
    }
}

/// The first required variable, in declaration order, missing from the vault.
pub open spec fn first_missing_required(
    c: Contents,
    namespace: Seq<char>,
    vars: Seq<(String, VarSpec)>,
) -> Option<Seq<char>>
    decreases vars.len(),
{
    if vars.len() == 0 {
        None
    } else if vars[0].1.required && !c.contains_key((namespace, vars[0].0@)) {
        Some(vars[0].0@)
    } else {
        first_missing_required(c, namespace, vars.drop_first())
    }
}

/// What reading the declared variables gives when the vault answered
/// `answers` to the reads of the first `answers.len()` of them, in order: the
/// `(name, value)` pairs loaded, or the error that stopped the reading.
pub open spec fn collected(vars: Seq<(String, VarSpec)>, answers: Seq<Result<SecretValue>>) -> Result<
    Seq<(Seq<char>, SecretValue)>,
>
    decreases answers.len(),
{
    if answers.len() == 0 {
        Ok(Seq::empty())
    } else {
        let k = answers.len() - 1;
        match collected(vars, answers.drop_last()) {
            Err(e) => Err(e),
            Ok(acc) => match answers.last() {
                Ok(v) => Ok(acc.push((vars[k].0@, v))),
                Err(e) => if e is NotFound && !vars[k].1.required {
                    Ok(acc)
                } else {
                    Err(e)
                },
            },
        }
    }
}

/// When every read answers a value, every variable read is loaded, in
/// declaration order, with the value read.
pub proof fn law_values_read_are_loaded(vars: Seq<(String, VarSpec)>, answers: Seq<Result<SecretValue>>)
    requires
        answers.len() <= vars.len(),
        forall|j: int| 0 <= j < answers.len() ==> #[trigger] answers[j] is Ok,
    ensures
        collected(vars, answers) matches Ok(acc) && acc.len() == answers.len() && forall|j: int|
            0 <= j < answers.len() ==> #[trigger] acc[j] == (vars[j].0@, answers[j]->Ok_0),
    decreases answers.len(),
{
    if answers.len() > 0 {
        let prev = answers.drop_last();
        assert forall|j: int| 0 <= j < prev.len() implies #[trigger] prev[j] is Ok by {
            assert(prev[j] == answers[j]);
        }
        law_values_read_are_loaded(vars, prev);
        assert(answers.last() == answers[answers.len() - 1]);
    }
}

/// Once an answer stops the reading (an error other than `NotFound` on an
/// optional variable), whatever comes after it, the result is that error.
pub proof fn law_first_failure_is_returned(
    vars: Seq<(String, VarSpec)>,
    answers: Seq<Result<SecretValue>>,
    j: int,
    e: Error,
)
    requires
        0 <= j < answers.len(),
        collected(vars, answers.take(j)) is Ok,
        answers[j] == Err::<SecretValue, Error>(e),
        !(e is NotFound && !vars[j].1.required),
    ensures
        collected(vars, answers) == Err::<Seq<(Seq<char>, SecretValue)>, Error>(e),
    decreases answers.len(),
{
    if answers.len() == j + 1 {
        assert(answers.drop_last() =~= answers.take(j));
    } else {
        let prev = answers.drop_last();
        assert(prev.take(j) =~= answers.take(j));
        assert(prev[j] == answers[j]);
        law_first_failure_is_returned(vars, prev, j, e);
    }
}

/// `r` is what `collected` gives: the same error, or the same pairs as
/// `env`, with `names` their names.
pub open spec fn gives_collected(
    r: Result<(Vec<(String, SecretValue)>, Vec<String>)>,
    c: Result<Seq<(Seq<char>, SecretValue)>>,
) -> bool {
    match r {
        Ok((env, names)) => c matches Ok(acc) && env@.len() == acc.len() && names@.len()
            == acc.len() && forall|i: int|
            0 <= i < acc.len() ==> #[trigger] acc[i] == (env@[i].0@, env@[i].1) && names@[i]@
                == acc[i].0,
        Err(e) => c == Err::<Seq<(Seq<char>, SecretValue)>, Error>(e),
    }
}

/// Read the secrets a manifest declares, in declaration order: a missing
/// optional variable is skipped, a missing required one is an error, and so
/// is any other failed read. Returns the secrets to inject and the names
/// loaded. Whatever the vault, the result is what `collected` gives for the
/// answers its reads gave, one read per variable until one stops the run;
/// for a modelled vault, the answers are its contents.
pub fn collect_secrets<V: Vault + ?Sized>(vault: &V, manifest: &Manifest) -> (r: Result<
    (Vec<(String, SecretValue)>, Vec<String>),
>)
    ensures
        r matches Ok((env, names)) ==> env@.len() == names@.len() && forall|i: int|
            0 <= i < env@.len() ==> #[trigger] env@[i].0@ == names@[i]@,
        r matches Ok((env, names)) ==> in_order_of(
            crate::text::views(names@),
            var_names(manifest.vars@),
        ),
        vault.is_modeled() ==> (r matches Ok((env, names)) ==> forall|i: int|
            0 <= i < env@.len() ==> vault.contents().contains_key(
                (manifest.namespace@, #[trigger] names@[i]@),
            ) && env@[i].1@ == vault.contents()[(manifest.namespace@, names@[i]@)]),
        exists|answers: Seq<Result<SecretValue>>|
            #![trigger collected(manifest.vars@, answers)]
            {
                &&& answers.len() <= manifest.vars@.len()
                &&& answers.len() < manifest.vars@.len() ==> collected(
                    manifest.vars@,
                    answers,
                ) is Err
                &&& gives_collected(r, collected(manifest.vars@, answers))
            },
        exact(vault) ==> match first_missing_required(
            vault.contents(),
            manifest.namespace@,
            manifest.vars@,
        ) {
            Some(v) => crate::vault::is_not_found(r, manifest.namespace@, v),
            None => r matches Ok((env, names)) && crate::text::views(names@) == loaded_names(
                vault.contents(),
                manifest.namespace@,
                manifest.vars@,
            ),
        },
{
    let ghost c = vault.contents();
    let ghost ns = manifest.namespace@;
    let ghost vars = manifest.vars@;
    let mut env: Vec<(String, SecretValue)> = Vec::new();
    let mut names: Vec<String> = Vec::new();
    let mut i: usize = 0;
    let ghost mut answers: Seq<Result<SecretValue>> = Seq::empty();
    assert(vars.skip(0) =~= vars);
    assert(vars.take(0) =~= Seq::<(String, VarSpec)>::empty());
    while i < manifest.vars.len()
        invariant
            i <= vars.len(),
            c == vault.contents(),
            ns == manifest.namespace@,
            vars == manifest.vars@,
            env@.len() == names@.len(),
            forall|k: int| 0 <= k < env@.len() ==> #[trigger] env@[k].0@ == names@[k]@,
            vault.is_modeled() ==> forall|k: int|
                0 <= k < names@.len() ==> c.contains_key((ns, #[trigger] names@[k]@)),
            vault.is_modeled() ==> forall|k: int|
                0 <= k < env@.len() ==> #[trigger] env@[k].1@ == c[(ns, names@[k]@)],
            answers.len() == i,
            collected(vars, answers) matches Ok(acc) && acc.len() == env@.len() && forall|k: int|
                0 <= k < acc.len() ==> #[trigger] acc[k] == (env@[k].0@, env@[k].1),
            exact(vault) ==> crate::text::views(names@) == loaded_names(c, ns, vars.take(i as int)),
            in_order_of(crate::text::views(names@), var_names(vars.take(i as int))),
            exact(vault) ==> first_missing_required(c, ns, vars) == first_missing_required(
                c,
                ns,
                vars.skip(i as int),
            ),
        decreases manifest.vars.len() - i,
    {
        let name = &manifest.vars[i].0;
        let required = manifest.vars[i].1.required;
        assert(vars.skip(i as int)[0] == vars[i as int]);
        assert(vars.skip(i as int).drop_first() =~= vars.skip(i + 1));
        assert(vars.take(i + 1).drop_last() =~= vars.take(i as int));
        assert(vars.take(i + 1).last() == vars[i as int]);
        assert(var_names(vars.take(i + 1)).drop_last() =~= var_names(vars.take(i as int)));
        assert(var_names(vars.take(i + 1)).last() == name@);
        let read = vault.get(manifest.namespace.as_str(), name.as_str());
        let ghost got = read;
        let ghost prev = answers;
        proof {
            answers = answers.push(got);
            assert(answers.drop_last() =~= prev);
        }
        match load_decision(required, read) {
            LoadStep::Load(value) => {
                let ghost before = crate::text::views(names@);
                let ghost old_env = env@;
                let ghost old_names = names@;
                let ghost vv = value@;
                assert(vault.is_modeled() ==> c.contains_key((ns, name@)) && vv == c[(ns, name@)]);
                env.push((name.clone(), value));
                names.push(name.clone());
                assert(crate::text::views(names@) =~= before.push(name@));
                assert(crate::text::views(names@).drop_last() =~= before);
                assert(in_order_of(crate::text::views(names@), var_names(vars.take(i + 1))));
                assert forall|k: int| 0 <= k < env@.len() implies env@[k].0@ == names@[k]@
                    && (vault.is_modeled() ==> c.contains_key((ns, names@[k]@)) && env@[k].1@
                    == c[(ns, names@[k]@)]) by {
                    if k < old_env.len() {
                        assert(env@[k] == old_env[k]);
                        assert(names@[k] == old_names[k]);
                    } else {
                        assert(env@[k].0@ == name@);
                        assert(names@[k]@ == name@);
                        assert(env@[k].1@ == vv);
                    }
                }
                assert forall|k: int| 0 <= k < env@.len() implies #[trigger] collected(
                    vars,
                    answers,
                )->Ok_0[k] == (env@[k].0@, env@[k].1) by {
                    if k < old_env.len() {
                        assert(env@[k] == old_env[k]);
                    }
                }
            },
            LoadStep::Skip => {},
            LoadStep::Fail(e) => {
                assert(gives_collected(Err(e), collected(vars, answers)));
                return Err(e);
            },
        }
        i = i + 1;
    }
    assert(vars.take(vars.len() as int) =~= vars);
    assert(vars.skip(vars.len() as int) =~= Seq::<(String, VarSpec)>::empty());
    assert(gives_collected(Ok((env, names)), collected(vars, answers)));
    Ok((env, names))
}

/// The required variables declared in `vars`, in order, absent from `c`.
pub open spec fn missing_required(c: Contents, namespace: Seq<char>, vars: Seq<(String, VarSpec)>) -> Seq<
    Seq<char>,
>
    decreases vars.len(),
{
    if vars.len() == 0 {
        Seq::empty()
    } else {
        let rest = missing_required(c, namespace, vars.drop_last());
        if vars.last().1.required && !c.contains_key((namespace, vars.last().0@)) {
            rest.push(vars.last().0@)
        } else {
            rest
        }
    }
}

/// What checking the declared variables gives when the vault answered
/// `answers` for the first `answers.len()` of them (an optional variable is
/// not read, and its answer is not looked at): the required variables found
/// missing, in order, or the error a read gave.
pub open spec fn found_missing(vars: Seq<(String, VarSpec)>, answers: Seq<Result<SecretValue>>) -> Result<
    Seq<Seq<char>>,
>
    decreases answers.len(),
{
    if answers.len() == 0 {
        Ok(Seq::empty())
    } else {
        let k = answers.len() - 1;
        match found_missing(vars, answers.drop_last()) {
            Err(e) => Err(e),
            Ok(acc) => if !vars[k].1.required {
                Ok(acc)
            } else {
                match answers.last() {
                    Ok(_) => Ok(acc),
                    Err(e) => if e is NotFound {
                        Ok(acc.push(vars[k].0@))
                    } else {
                        Err(e)
                    },
                }
            },
        }
    }
}

/// `r` is what `found_missing` gives: the same error, or the same names.
pub open spec fn gives_found(r: Result<Vec<String>>, f: Result<Seq<Seq<char>>>) -> bool {
    match r {
        Ok(names) => f == Ok::<Seq<Seq<char>>, Error>(crate::text::views(names@)),
        Err(e) => f == Err::<Seq<Seq<char>>, Error>(e),
    }
}

/// The required variables of `manifest` that the vault lacks, in declaration
/// order: what bootstrapping asks the user for. Only required variables are
/// read; a failed read other than `NotFound` is returned (`found_missing`).
pub fn missing_required_vars<V: Vault + ?Sized>(vault: &V, manifest: &Manifest) -> (r: Result<
    Vec<String>,
>)
    ensures
        exists|answers: Seq<Result<SecretValue>>|
            #![trigger found_missing(manifest.vars@, answers)]
            {
                &&& answers.len() <= manifest.vars@.len()
                &&& answers.len() < manifest.vars@.len() ==> found_missing(
                    manifest.vars@,
                    answers,
                ) is Err
                &&& gives_found(r, found_missing(manifest.vars@, answers))
            },
        exact(vault) ==> (r matches Ok(names) && crate::text::views(names@)
            == missing_required(vault.contents(), manifest.namespace@, manifest.vars@)),
{
    let ghost c = vault.contents();
    let ghost ns = manifest.namespace@;
    let ghost vars = manifest.vars@;
    let mut names: Vec<String> = Vec::new();
    let mut i: usize = 0;
    let ghost mut answers: Seq<Result<SecretValue>> = Seq::empty();
    assert(vars.take(0) =~= Seq::<(String, VarSpec)>::empty());
    assert(crate::text::views(names@) =~= Seq::<Seq<char>>::empty());
    while i < manifest.vars.len()
        invariant
            i <= vars.len(),
            c == vault.contents(),
            ns == manifest.namespace@,
            vars == manifest.vars@,
            answers.len() == i,
            found_missing(vars, answers) == Ok::<Seq<Seq<char>>, Error>(
                crate::text::views(names@),
            ),
            exact(vault) ==> crate::text::views(names@) == missing_required(
                c,
                ns,
                vars.take(i as int),
            ),
        decreases manifest.vars.len() - i,
    {
        assert(vars.take(i + 1).drop_last() =~= vars.take(i as int));
        assert(vars.take(i + 1).last() == vars[i as int]);
        let ghost prev = answers;
        if manifest.vars[i].1.required {
            let name = &manifest.vars[i].0;
            let read = vault.get(manifest.namespace.as_str(), name.as_str());
            proof {
                answers = answers.push(read);
                assert(answers.drop_last() =~= prev);
            }
            match missing_decision(read) {
                Ok(true) => {
                    let ghost before = crate::text::views(names@);
                    names.push(name.clone());
                    assert(crate::text::views(names@) =~= before.push(name@));
                },
                Ok(false) => {},
                Err(e) => {
                    assert(gives_found(Err(e), found_missing(vars, answers)));
                    return Err(e);
                },
            }
        } else {
            proof {
                answers = answers.push(vstd::pervasive::arbitrary());
                assert(answers.drop_last() =~= prev);
            }
        }
        i = i + 1;
    }
    assert(vars.take(vars.len() as int) =~= vars);
    assert(gives_found(Ok(names), found_missing(vars, answers)));
    Ok(names)
}

/// What the audit row records when the run ends: the child's duration and
/// exit code when it ran, nothing when it could not be run.
pub fn close_for(outcome: &Result<ChildOutcome>) -> (c: CloseRun)
    ensures
        outcome matches Ok(child) ==> c.duration_ms == Some(child.duration_ms) && c.child_exit
            == child.exit_code,
        outcome is Err ==> c.duration_ms is None && c.child_exit is None,
{
    match outcome {
        Ok(child) => CloseRun { duration_ms: Some(child.duration_ms), child_exit: child.exit_code },
        Err(_) => CloseRun { duration_ms: None, child_exit: None },
    }
}

/// What a run returns once its audit row was closed: a failure to close the
/// row is the run's error; otherwise the child's outcome stands.
pub fn finish_run(closed: Result<()>, outcome: Result<ChildOutcome>) -> (r: Result<ChildOutcome>)
    ensures
        closed matches Err(e) ==> r == Err::<ChildOutcome, Error>(e),
        closed is Ok ==> r == outcome,
{
    match closed {
        Err(e) => Err(e),
        Ok(()) => outcome,
    }
}

/// What the application reports to the run flow.
#[derive(Debug)]
pub enum RunEvent {
    /// The declared secrets were read (`collect_secrets`), or reading them failed.
    SecretsRead(Result<()>),
    /// The audit row was opened (its id), or could not be.
    RowOpened(Result<i64>),
    /// The child ran, or could not be run.
    ChildDone(Result<ChildOutcome>),
    /// The audit row was closed, or could not be.
    RowClosed(Result<()>),
}

/// What the run flow asks the application to do next.
#[derive(Debug)]
pub enum RunAction {
    /// Record the start of the run in the audit log.
    OpenRow,
    /// Run the child with the secrets.
    RunChild,
    /// Record the end of the run in row `id`.
    CloseRow { id: i64, close: CloseRun },
    /// The run is over with this result.
    Finish(Result<ChildOutcome>),
}

/// The `stowe run` sequence: read the secrets, and stop there if that fails
/// (no audit row is opened, no child runs); open the audit row; run the child;
/// close the row whatever the child did; then return the child's outcome (or
/// the first failure of the audit log).
#[derive(Debug)]
pub struct RunFlow {
    /// The audit row, once opened.
    pub row: Option<i64>,
    /// The child's outcome, once it ran.
    pub outcome: Option<Result<ChildOutcome>>,
}

impl RunFlow {
    pub fn new() -> (f: Self)
        ensures
            f.row is None,
            f.outcome is None,
    {
        RunFlow { row: None, outcome: None }
    }

    /// The events that can come in this state: the child only runs once the
    /// row is open, and the row is only closed once the child ran.
    pub open spec fn expects(&self, event: RunEvent) -> bool {
        match event {
            RunEvent::SecretsRead(_) => true,
            RunEvent::RowOpened(_) => true,
            RunEvent::ChildDone(_) => self.row is Some,
            RunEvent::RowClosed(_) => self.row is Some && self.outcome is Some,
        }
    }

    /// The next action after `event`.
    pub fn step(&mut self, event: RunEvent) -> (a: RunAction)
        requires
            old(self).expects(event),
        ensures
            match event {
                RunEvent::SecretsRead(Ok(())) => a is OpenRow && *final(self) == *old(self),
                RunEvent::SecretsRead(Err(e)) => a == RunAction::Finish(Err(e)) && *final(self)
                    == *old(self),
                RunEvent::RowOpened(Ok(id)) => a is RunChild && final(self).row == Some(id)
                    && final(self).outcome == old(self).outcome,
                RunEvent::RowOpened(Err(e)) => a == RunAction::Finish(Err(e)) && *final(self)
                    == *old(self),
                RunEvent::ChildDone(o) => final(self).row == old(self).row && final(self).outcome
                    == Some(o) && (a matches RunAction::CloseRow { id, close } && old(self).row
                    == Some(id) && match o {
                    Ok(child) => close.duration_ms == Some(child.duration_ms) && close.child_exit
                        == child.exit_code,
                    Err(_) => close.duration_ms is None && close.child_exit is None,
                }),
                RunEvent::RowClosed(Err(e)) => a == RunAction::Finish(Err(e))
                    && final(self).row == old(self).row && final(self).outcome is None,
                RunEvent::RowClosed(Ok(())) => a == RunAction::Finish(old(self).outcome->Some_0)
                    && final(self).row == old(self).row && final(self).outcome is None,
            },
    {
        match event {
            RunEvent::SecretsRead(Ok(())) => RunAction::OpenRow,
            RunEvent::SecretsRead(Err(e)) => RunAction::Finish(Err(e)),
            RunEvent::RowOpened(Ok(id)) => {
                self.row = Some(id);
                RunAction::RunChild
            },
            RunEvent::RowOpened(Err(e)) => RunAction::Finish(Err(e)),
            RunEvent::ChildDone(o) => {
                let id = self.row.unwrap();
                let close = close_for(&o);
                self.outcome = Some(o);
                RunAction::CloseRow { id, close }
            },
            RunEvent::RowClosed(closed) => {
                let outcome = self.outcome.take().unwrap();
                RunAction::Finish(finish_run(closed, outcome))
            },
        }
    }
}

} // verus!
