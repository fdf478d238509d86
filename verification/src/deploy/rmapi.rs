//! rmapi deploy backend: upload PDFs to the reMarkable cloud and refresh their
//! content non-destructively (preserving on-device handwriting).
//!
//! The command lines are built here; running them (and the file moves that a
//! download needs) is the runner's job, so the sequences can be checked
//! without the real binary.
//!
//! For the process-backed runner, the library decides whether the binary and
//! its pairing config are usable, where the config lives, and the steps of a
//! guarded call (a failed call that blanked the config gets the snapshot
//! restored and one retry); starting processes and touching files is left to
//! the caller.
use vstd::prelude::*;

use super::{DeployError, Deployer};
use crate::text::{chars_eq, chars_of, chars_starts_with, extend_str, starts_with, string_of, trim, trim_chars};
use crate::wizard::{join, join_path};

verus! {

/// Runs `rmapi` subcommands and handles the files a download produces.
pub trait RmapiRunner {
    /// Run `rmapi <args...>`; `args` never includes the binary name.
    fn run(&self, args: &[&str]) -> Result<(), DeployError>;

    /// Run `rmapi <args...>` with `dir` as working directory; whether the
    /// command succeeded.
    fn try_run_in(&self, dir: &str, args: &[&str]) -> Result<bool, DeployError>;

    /// A fresh, empty working directory.
    fn scratch_dir(&self) -> Result<String, DeployError>;

    /// Move `dir/file` to a stable temp path whose file name is `dest_name`
    /// and return that path; `None` when `dir/file` does not exist.
    fn collect(&self, dir: &str, file: &str, dest_name: &str) -> Result<Option<String>, DeployError>;
}

/// Uploads / refreshes PDFs through an [`RmapiRunner`].
#[derive(Debug)]
pub struct RmapiDeployer<R: RmapiRunner> {
    runner: R,
}

pub open spec fn strs(v: Seq<&str>) -> Seq<Seq<char>> {
    v.map_values(|s: &str| s@)
}

/// `-ni put [--content-only] <pdf> <folder>`; `-ni` keeps rmapi
/// non-interactive so it never blocks on the pairing prompt.
pub open spec fn put_args_spec(pdf: Seq<char>, folder: Seq<char>, content_only: bool) -> Seq<
    Seq<char>,
> {
    seq!["-ni"@, "put"@] + (if content_only {
        seq!["--content-only"@]
    } else {
        Seq::empty()
    }) + seq![pdf, folder]
}

pub open spec fn mkdir_args_spec(folder: Seq<char>) -> Seq<Seq<char>> {
    seq!["-ni"@, "mkdir"@, folder]
}

pub open spec fn rm_args_spec(remote: Seq<char>) -> Seq<Seq<char>> {
    seq!["-ni"@, "rm"@, remote]
}

pub open spec fn get_args_spec(remote: Seq<char>) -> Seq<Seq<char>> {
    seq!["-ni"@, "get"@, remote]
}

/// Index just after the last `/` of `s` (0 when there is none).
pub open spec fn name_start(s: Seq<char>) -> int
    decreases s.len(),
{
    if s.len() == 0 {
        0
    } else if s.last() == '/' {
        s.len() as int
    } else {
        name_start(s.drop_last())
    }
}

/// Index of the last `.` of `s`, if any.
pub open spec fn last_dot(s: Seq<char>) -> Option<int>
    decreases s.len(),
{
    if s.len() == 0 {
        None
    } else if s.last() == '.' {
        Some(s.len() - 1)
    } else {
        last_dot(s.drop_last())
    }
}

/// The file name of a path without its extension (`Path::file_stem` for
/// paths without trailing slashes).
pub open spec fn file_stem_spec(path: Seq<char>) -> Seq<char> {
    let name = path.skip(name_start(path));
    match last_dot(name) {
        Some(i) => if i > 0 {
            name.take(i)
        } else {
            name
        },
        None => name,
    }
}

pub fn file_stem(path: &str) -> (r: String)
    ensures
        r@ == file_stem_spec(path@),
{
    let cs = chars_of(path);
    let mut a: usize = cs.len();
    assert(cs@.take(a as int) =~= cs@);
    while a > 0 && cs[a - 1] != '/'
        invariant
            a <= cs.len(),
            cs@ == path@,
            name_start(cs@) == name_start(cs@.take(a as int)),
        decreases a,
    {
        assert(cs@.take(a as int).drop_last() =~= cs@.take(a - 1));
        a = a - 1;
    }
    proof {
        assert(cs@.take(a as int).len() == a);
        if a > 0 {
            assert(cs@.take(a as int).last() == '/');
        }
        assert(cs@.take(0) =~= Seq::<char>::empty());
    }
    let mut name: Vec<char> = Vec::new();
    let mut i = a;
    while i < cs.len()
        invariant
            a <= i <= cs.len(),
            name@ == cs@.subrange(a as int, i as int),
        decreases cs.len() - i,
    {
        name.push(cs[i]);
        i = i + 1;
        assert(cs@.subrange(a as int, i as int) =~= cs@.subrange(a as int, i - 1).push(cs@[i - 1]));
    }
    assert(name@ =~= path@.skip(name_start(path@)));
    let mut k: usize = name.len();
    assert(name@.take(k as int) =~= name@);
    while k > 0 && name[k - 1] != '.'
        invariant
            k <= name.len(),
            last_dot(name@) == last_dot(name@.take(k as int)),
        decreases k,
    {
        assert(name@.take(k as int).drop_last() =~= name@.take(k - 1));
        k = k - 1;
    }
    proof {
        if k > 0 {
            assert(name@.take(k as int).last() == '.');
            assert(last_dot(name@) == Some(k - 1));
        } else {
            assert(name@.take(0) =~= Seq::<char>::empty());
        }
    }
    if k > 1 {
        name.truncate(k - 1);
        assert(name@ =~= path@.skip(name_start(path@)).take(k - 1));
    }
    string_of(&name)
}

impl<R: RmapiRunner> RmapiDeployer<R> {
    pub closed spec fn runner_spec(&self) -> R {
        self.runner
    }

    pub fn new(runner: R) -> (r: Self)
        ensures
            r.runner_spec() == runner,
    {
        RmapiDeployer { runner }
    }

    /// The `put` argument vector.
    pub fn put_args<'a>(&self, pdf: &'a str, folder: &'a str, content_only: bool) -> (r: Vec<&'a str>)
        ensures
            strs(r@) == put_args_spec(pdf@, folder@, content_only),
    {
        put_call_args(pdf, folder, content_only)
    }
}

pub fn mkdir_args<'a>(folder: &'a str) -> (r: Vec<&'a str>)
    ensures
        strs(r@) == mkdir_args_spec(folder@),
{
    let mut a: Vec<&'a str> = Vec::new();
    a.push("-ni");
    a.push("mkdir");
    a.push(folder);
    assert(strs(a@) =~= mkdir_args_spec(folder@));
    a
}

pub fn rm_args<'a>(remote: &'a str) -> (r: Vec<&'a str>)
    ensures
        strs(r@) == rm_args_spec(remote@),
{
    let mut a: Vec<&'a str> = Vec::new();
    a.push("-ni");
    a.push("rm");
    a.push(remote);
    assert(strs(a@) =~= rm_args_spec(remote@));
    a
}

pub fn get_args<'a>(remote: &'a str) -> (r: Vec<&'a str>)
    ensures
        strs(r@) == get_args_spec(remote@),
{
    let mut a: Vec<&'a str> = Vec::new();
    a.push("-ni");
    a.push("get");
    a.push(remote);
    assert(strs(a@) =~= get_args_spec(remote@));
    a
}

/// The file a download of document `name` produces, and the stable name it is
/// kept under.
pub open spec fn bundle_names_spec(name: Seq<char>) -> (Seq<char>, Seq<char>) {
    (name + ".rmdoc"@, "rmreader-"@ + name + ".rmdoc"@)
}

pub fn bundle_names(name: &str) -> (r: (String, String))
    ensures
        (r.0@, r.1@) == bundle_names_spec(name@),
{
    let mut a: Vec<char> = Vec::new();
    extend_str(&mut a, name);
    extend_str(&mut a, ".rmdoc");
    let mut b: Vec<char> = Vec::new();
    extend_str(&mut b, "rmreader-");
    extend_str(&mut b, name);
    extend_str(&mut b, ".rmdoc");
    (string_of(&a), string_of(&b))
}

/// One rmapi call of an upload, and whether its failure ends the upload
/// (and is reported) or is ignored.
#[derive(Debug, Clone)]
pub struct RmapiCall {
    pub args: Vec<String>,
    pub stop_on_failure: bool,
}

pub open spec fn call_view(c: RmapiCall) -> (Seq<Seq<char>>, bool) {
    (c.args@.map_values(|a: String| a@), c.stop_on_failure)
}

pub open spec fn calls_view(v: Seq<RmapiCall>) -> Seq<(Seq<Seq<char>>, bool)> {
    v.map_values(|c: RmapiCall| call_view(c))
}

/// The calls for one `(pdf, folder)` target: a full deploy first makes the
/// folder (its failure ignored: the folder may exist), then puts the PDF; a
/// content-only refresh just puts. A failing put ends the upload.
pub open spec fn target_calls(pdf: Seq<char>, folder: Seq<char>, content_only: bool) -> Seq<
    (Seq<Seq<char>>, bool),
> {
    if content_only {
        seq![(put_args_spec(pdf, folder, true), true)]
    } else {
        seq![(mkdir_args_spec(folder), false), (put_args_spec(pdf, folder, false), true)]
    }
}

/// The calls of an upload, target after target.
pub open spec fn upload_plan_spec(targets: Seq<(String, String)>, content_only: bool) -> Seq<
    (Seq<Seq<char>>, bool),
>
    decreases targets.len(),
{
    if targets.len() == 0 {
        Seq::empty()
    } else {
        upload_plan_spec(targets.drop_last(), content_only) + target_calls(
            targets.last().0@,
            targets.last().1@,
            content_only,
        )
    }
}

fn owned_args(a: &Vec<&str>) -> (r: Vec<String>)
    ensures
        r@.map_values(|x: String| x@) == strs(a@),
{
    let mut r: Vec<String> = Vec::new();
    let mut i: usize = 0;
    while i < a.len()
        invariant
            i <= a.len(),
            r@.len() == i,
            forall|k: int| 0 <= k < i ==> (#[trigger] r@[k])@ == a@[k]@,
        decreases a.len() - i,
    {
        r.push(string_of(&chars_of(a[i])));
        i = i + 1;
    }
    assert(r@.map_values(|x: String| x@) =~= strs(a@));
    r
}

/// The rmapi calls that deploy (`content_only` false) or refresh
/// (`content_only` true) `targets`, in order.
pub fn upload_plan(targets: &[(String, String)], content_only: bool) -> (r: Vec<RmapiCall>)
    ensures
        calls_view(r@) == upload_plan_spec(targets@, content_only),
{
    let mut plan: Vec<RmapiCall> = Vec::new();
    let mut i: usize = 0;
    while i < targets.len()
        invariant
            i <= targets.len(),
            calls_view(plan@) == upload_plan_spec(
                targets@.take(i as int),
                content_only,
            ),
        decreases targets.len() - i,
    {
        let (pdf, folder) = &targets[i];
        let ghost before = calls_view(plan@);
        if !content_only {
            let m = mkdir_args(folder.as_str());
            plan.push(RmapiCall { args: owned_args(&m), stop_on_failure: false });
        }
        let p = put_call_args(pdf.as_str(), folder.as_str(), content_only);
        plan.push(RmapiCall { args: owned_args(&p), stop_on_failure: true });
        i = i + 1;
        proof {
            assert(targets@.take(i as int).drop_last() =~= targets@.take(i - 1));
            assert(targets@.take(i as int).last() == targets@[i - 1]);
            assert(calls_view(plan@) =~= before + target_calls(
                pdf@,
                folder@,
                content_only,
            ));
        }
    }
    assert(targets@.take(targets.len() as int) =~= targets@);
    plan
}

/// `-ni put [--content-only] <pdf> <folder>`.
fn put_call_args<'a>(pdf: &'a str, folder: &'a str, content_only: bool) -> (r: Vec<&'a str>)
    ensures
        strs(r@) == put_args_spec(pdf@, folder@, content_only),
{
    let mut a: Vec<&'a str> = Vec::new();
    a.push("-ni");
    a.push("put");
    if content_only {
        a.push("--content-only");
    }
    a.push(pdf);
    a.push(folder);
    assert(strs(a@) =~= put_args_spec(pdf@, folder@, content_only));
    a
}

fn borrowed_args(a: &Vec<String>) -> (r: Vec<&str>)
    ensures
        strs(r@) == a@.map_values(|x: String| x@),
{
    let mut r: Vec<&str> = Vec::new();
    let mut i: usize = 0;
    while i < a.len()
        invariant
            i <= a.len(),
            r@.len() == i,
            forall|k: int| 0 <= k < i ==> (#[trigger] r@[k])@ == a@[k]@,
        decreases a.len() - i,
    {
        r.push(a[i].as_str());
        i = i + 1;
    }
    assert(strs(r@) =~= a@.map_values(|x: String| x@));
    r
}

/// What one answer of the runner does to an upload: a failure of a call that
/// stops the upload ends it with that error; anything else goes on.
pub open spec fn plan_step_spec(stop_on_failure: bool, res: Result<(), DeployError>) -> Option<
    DeployError,
> {
    match res {
        Err(e) => if stop_on_failure {
            Some(e)
        } else {
            None
        },
        Ok(()) => None,
    }
}

pub fn plan_step(call: &RmapiCall, res: Result<(), DeployError>) -> (stop: Option<DeployError>)
    ensures
        stop == plan_step_spec(call.stop_on_failure, res),
{
    match res {
        Err(e) => if call.stop_on_failure {
            Some(e)
        } else {
            None
        },
        Ok(()) => None,
    }
}

/// The result of an upload whose calls got `answers`, in turn: the error of
/// the first answer that stops it, else success.
pub open spec fn upload_outcome(
    plan: Seq<(Seq<Seq<char>>, bool)>,
    answers: Seq<Result<(), DeployError>>,
) -> Result<(), DeployError>
    decreases answers.len(),
{
    if plan.len() == 0 || answers.len() == 0 {
        Ok(())
    } else {
        match plan_step_spec(plan[0].1, answers[0]) {
            Some(e) => Err(e),
            None => upload_outcome(plan.drop_first(), answers.drop_first()),
        }
    }
}

proof fn lemma_outcome_go_on(
    plan: Seq<(Seq<Seq<char>>, bool)>,
    answers: Seq<Result<(), DeployError>>,
    res: Result<(), DeployError>,
)
    requires
        answers.len() < plan.len(),
        upload_outcome(plan, answers) == Ok::<(), DeployError>(()),
        forall|k: int| 0 <= k < answers.len() ==> plan_step_spec(plan[k].1, #[trigger] answers[k]) is None,
    ensures
        upload_outcome(plan, answers.push(res)) == (match plan_step_spec(plan[answers.len() as int].1, res) {
            Some(e) => Err(e),
            None => Ok::<(), DeployError>(()),
        }),
    decreases answers.len(),
{
    if answers.len() == 0 {
        let one = answers.push(res);
        assert(one[0] == res);
        assert(one.drop_first() =~= Seq::<Result<(), DeployError>>::empty());
        assert(upload_outcome(plan.drop_first(), one.drop_first()) == Ok::<(), DeployError>(()));
    } else {
        let p2 = plan.drop_first();
        let a2 = answers.drop_first();
        assert forall|k: int| 0 <= k < a2.len() implies plan_step_spec(p2[k].1, #[trigger] a2[k]) is None by {
            assert(a2[k] == answers[k + 1]);
            assert(p2[k] == plan[k + 1]);
        }
        assert(plan_step_spec(plan[0].1, answers[0]) is None);
        lemma_outcome_go_on(p2, a2, res);
        assert(answers.push(res).drop_first() =~= a2.push(res));
        assert(answers.push(res)[0] == answers[0]);
        assert(p2[a2.len() as int] == plan[answers.len() as int]);
    }
}

impl<R: RmapiRunner> RmapiDeployer<R> {
    /// Run an upload plan: each call in order, each answer handled by
    /// [`plan_step`]; the first answer that stops the upload ends it with its
    /// error.
    fn run_plan(&self, plan: &Vec<RmapiCall>) -> (r: Result<(), DeployError>)
        ensures
            exists|answers: Seq<Result<(), DeployError>>|
                {
                    &&& answers.len() <= plan@.len()
                    &&& (r is Ok ==> answers.len() == plan@.len())
                    &&& r == #[trigger] upload_outcome(calls_view(plan@), answers)
                },
    {
        let ghost pv = calls_view(plan@);
        let ghost mut answers: Seq<Result<(), DeployError>> = Seq::empty();
        let mut i: usize = 0;
        while i < plan.len()
            invariant
                i <= plan.len(),
                pv == calls_view(plan@),
                answers.len() == i,
                upload_outcome(pv, answers) == Ok::<(), DeployError>(()),
                forall|k: int| 0 <= k < answers.len() ==> plan_step_spec(pv[k].1, #[trigger] answers[k]) is None,
            decreases plan.len() - i,
        {
            let args = borrowed_args(&plan[i].args);
            let res = self.runner.run(args.as_slice());
            proof {
                lemma_outcome_go_on(pv, answers, res);
                answers = answers.push(res);
            }
            assert(pv[i as int].1 == plan@[i as int].stop_on_failure);
            match plan_step(&plan[i], res) {
                Some(e) => {
                    return Err(e);
                },
                None => {},
            }
            i = i + 1;
        }
        Ok(())
    }
}

impl<R: RmapiRunner> Deployer for RmapiDeployer<R> {
    /// Runs [`upload_plan`] without `--content-only`: per target `mkdir`
    /// (its failure ignored) then `put`; the first failing `put` stops the
    /// deploy with its error.
    fn deploy(&self, targets: &[(String, String)]) -> (r: Result<(), DeployError>)
        ensures
            targets@.len() == 0 ==> r is Ok,
            r is Err ==> targets@.len() > 0,
            exists|answers: Seq<Result<(), DeployError>>|
                {
                    &&& answers.len() <= upload_plan_spec(targets@, false).len()
                    &&& (r is Ok ==> answers.len() == upload_plan_spec(targets@, false).len())
                    &&& r == #[trigger] upload_outcome(upload_plan_spec(targets@, false), answers)
                },
    {
        let plan = upload_plan(targets, false);
        proof {
            if targets@.len() == 0 {
                assert(calls_view(plan@).len() == 0);
            }
        }
        self.run_plan(&plan)
    }

    /// Runs [`upload_plan`] with `--content-only`: one `put` per target; the
    /// first failure stops the refresh with its error.
    fn refresh(&self, targets: &[(String, String)]) -> (r: Result<(), DeployError>)
        ensures
            targets@.len() == 0 ==> r is Ok,
            r is Err ==> targets@.len() > 0,
            exists|answers: Seq<Result<(), DeployError>>|
                {
                    &&& answers.len() <= upload_plan_spec(targets@, true).len()
                    &&& (r is Ok ==> answers.len() == upload_plan_spec(targets@, true).len())
                    &&& r == #[trigger] upload_outcome(upload_plan_spec(targets@, true), answers)
                },
    {
        let plan = upload_plan(targets, true);
        proof {
            if targets@.len() == 0 {
                assert(calls_view(plan@).len() == 0);
            }
        }
        self.run_plan(&plan)
    }

    /// `get <folder>/<name>` in a scratch directory; the bundle is kept under
    /// `rmreader-<name>.rmdoc`. `None` when the download fails.
    fn fetch(&self, folder: &str, name: &str) -> (r: Result<Option<String>, DeployError>) {
        let dir = self.runner.scratch_dir()?;
        let remote = join(folder, name);
        let args = get_args(remote.as_str());
        if !self.runner.try_run_in(dir.as_str(), args.as_slice())? {
            return Ok(None);
        }
        let (file, stable) = bundle_names(name);
        self.runner.collect(dir.as_str(), file.as_str(), stable.as_str())
    }

    /// `rm <folder>/<stem of pdf>` (its failure ignored: the doc may not
    /// exist), then `put`.
    fn replace(&self, pdf: &str, folder: &str) -> (r: Result<(), DeployError>) {
        let stem = file_stem(pdf);
        let remote = join(folder, stem.as_str());
        let _ = self.runner.run(rm_args(remote.as_str()).as_slice());
        let args = self.put_args(pdf, folder, false);
        self.runner.run(args.as_slice())
    }
}

// ---------------------------------------------------------------------------
// Pairing config
// ---------------------------------------------------------------------------

/// Text of bytes decoded as UTF-8 with invalid sequences replaced.
pub uninterp spec fn utf8_lossy(bytes: Seq<u8>) -> Seq<char>;

/// `String::from_utf8_lossy` of std: UTF-8 decoding, each invalid sequence
/// replaced by U+FFFD; a function of the bytes alone.
#[verifier::external_body]
fn lossy_text(bytes: &[u8]) -> (r: String)
    ensures
        r@ == utf8_lossy(bytes@),
{
    String::from_utf8_lossy(bytes).into_owned()
}

/// Lines of a text split at `\n`: the finished lines and the current one.
pub open spec fn split_state(s: Seq<char>) -> (Seq<Seq<char>>, Seq<char>)
    decreases s.len(),
{
    if s.len() == 0 {
        (Seq::empty(), Seq::empty())
    } else {
        let (ls, cur) = split_state(s.drop_last());
        if s.last() == '\n' {
            (ls.push(cur), Seq::empty())
        } else {
            (ls, cur.push(s.last()))
        }
    }
}

pub open spec fn text_lines(s: Seq<char>) -> Seq<Seq<char>> {
    split_state(s).0.push(split_state(s).1)
}

pub open spec fn skip_colons(s: Seq<char>) -> Seq<char>
    decreases s.len(),
{
    if s.len() > 0 && s[0] == ':' {
        skip_colons(s.drop_first())
    } else {
        s
    }
}

pub open spec fn trim_quotes_end(s: Seq<char>) -> Seq<char>
    decreases s.len(),
{
    if s.len() > 0 && s.last() == '"' {
        trim_quotes_end(s.drop_last())
    } else {
        s
    }
}

pub open spec fn trim_quotes(s: Seq<char>) -> Seq<char>
    decreases s.len(),
{
    if s.len() > 0 && s[0] == '"' {
        trim_quotes(s.drop_first())
    } else {
        trim_quotes_end(s)
    }
}

/// A `key: "value"` line with a non-empty value.
pub open spec fn line_sets(line: Seq<char>, key: Seq<char>) -> bool {
    let t = trim(line);
    starts_with(t, key) && trim_quotes(trim(skip_colons(t.skip(key.len() as int)))).len() > 0
}

pub open spec fn conf_sets(text: Seq<char>, key: Seq<char>) -> bool {
    exists|i: int| 0 <= i < text_lines(text).len() && line_sets(#[trigger] text_lines(text)[i], key)
}

/// A pairing config is blank unless it holds a non-empty `devicetoken` and a
/// non-empty `usertoken` (rmapi can blank them, or truncate the file).
pub open spec fn blank_conf_spec(bytes: Seq<u8>) -> bool {
    !(conf_sets(utf8_lossy(bytes), "devicetoken"@) && conf_sets(utf8_lossy(bytes), "usertoken"@))
}

#[verifier::spinoff_prover]
fn value_of(t: &Vec<char>, from: usize) -> (r: Vec<char>)
    requires
        from <= t.len(),
    ensures
        r@ == trim_quotes(trim(skip_colons(t@.skip(from as int)))),
{
    let mut a = from;
    assert(t@.skip(from as int) =~= t@.skip(a as int));
    while a < t.len() && t[a] == ':'
        invariant
            from <= a <= t.len(),
            skip_colons(t@.skip(from as int)) == skip_colons(t@.skip(a as int)),
        decreases t.len() - a,
    {
        assert(t@.skip(a as int).drop_first() =~= t@.skip(a + 1));
        a = a + 1;
    }
    let mut rest: Vec<char> = Vec::new();
    let mut i = a;
    while i < t.len()
        invariant
            a <= i <= t.len(),
            rest@ == t@.subrange(a as int, i as int),
        decreases t.len() - i,
    {
        rest.push(t[i]);
        i = i + 1;
        assert(t@.subrange(a as int, i as int) =~= t@.subrange(a as int, i - 1).push(t@[i - 1]));
    }
    assert(rest@ =~= t@.skip(a as int));
    let v = trim_chars(&rest);
    let mut b: usize = 0;
    assert(v@.skip(0) =~= v@);
    while b < v.len() && v[b] == '"'
        invariant
            b <= v.len(),
            trim_quotes(v@) == trim_quotes(v@.skip(b as int)),
        decreases v.len() - b,
    {
        assert(v@.skip(b as int).drop_first() =~= v@.skip(b + 1));
        b = b + 1;
    }
    let mut e: usize = v.len();
    assert(v@.skip(b as int).subrange(0, (e - b) as int) =~= v@.skip(b as int));
    proof {
        if !(b < v.len()) {
            assert(v@.skip(b as int).len() == 0);
        }
    }
    while e > b && v[e - 1] == '"'
        invariant
            b <= e <= v.len(),
            trim_quotes(v@) == trim_quotes_end(v@.subrange(b as int, e as int)),
        decreases e,
    {
        assert(v@.subrange(b as int, e as int).drop_last() =~= v@.subrange(b as int, e - 1));
        e = e - 1;
    }
    let mut out: Vec<char> = Vec::new();
    let mut k = b;
    while k < e
        invariant
            b <= k <= e <= v.len(),
            out@ == v@.subrange(b as int, k as int),
        decreases e - k,
    {
        out.push(v[k]);
        k = k + 1;
        assert(v@.subrange(b as int, k as int) =~= v@.subrange(b as int, k - 1).push(v@[k - 1]));
    }
    out
}

fn line_sets_exec(line: &Vec<char>, key: &Vec<char>) -> (r: bool)
    ensures
        r == line_sets(line@, key@),
{
    let t = trim_chars(line);
    if !chars_starts_with(&t, key) {
        return false;
    }
    let v = value_of(&t, key.len());
    v.len() > 0
}

fn conf_sets_exec(text: &Vec<char>, key: &str) -> (r: bool)
    ensures
        r == conf_sets(text@, key@),
{
    let k = chars_of(key);
    let mut lines: Vec<Vec<char>> = Vec::new();
    let mut cur: Vec<char> = Vec::new();
    let mut i: usize = 0;
    while i < text.len()
        invariant
            i <= text.len(),
            lines@.map_values(|l: Vec<char>| l@) == split_state(text@.take(i as int)).0,
            cur@ == split_state(text@.take(i as int)).1,
        decreases text.len() - i,
    {
        proof {
            assert(text@.take(i + 1).drop_last() =~= text@.take(i as int));
        }
        if text[i] == '\n' {
            let done = cur;
            lines.push(done);
            cur = Vec::new();
        } else {
            cur.push(text[i]);
        }
        proof {
            assert(lines@.map_values(|l: Vec<char>| l@) =~= split_state(text@.take(i + 1)).0);
        }
        i = i + 1;
    }
    assert(text@.take(text.len() as int) =~= text@);
    lines.push(cur);
    assert(lines@.map_values(|l: Vec<char>| l@) =~= text_lines(text@));
    let mut j: usize = 0;
    while j < lines.len()
        invariant
            j <= lines.len(),
            lines@.map_values(|l: Vec<char>| l@) == text_lines(text@),
            k@ == key@,
            forall|m: int| 0 <= m < j ==> !line_sets(#[trigger] text_lines(text@)[m], key@),
        decreases lines.len() - j,
    {
        assert(text_lines(text@)[j as int] == lines@[j as int]@);
        if line_sets_exec(&lines[j], &k) {
            return true;
        }
        j = j + 1;
    }
    false
}

/// Whether a pairing config lacks a usable device or user token.
pub fn is_blank_conf(bytes: &[u8]) -> (r: bool)
    ensures
        r == blank_conf_spec(bytes@),
{
    let s = lossy_text(bytes);
    let text = chars_of(s.as_str());
    !(conf_sets_exec(&text, "devicetoken") && conf_sets_exec(&text, "usertoken"))
}

// ---------------------------------------------------------------------------
// The process-backed runner
// ---------------------------------------------------------------------------

/// The parts of `s` between `/` separators: the finished parts and the
/// current one.
pub open spec fn split_slash(s: Seq<char>) -> (Seq<Seq<char>>, Seq<char>)
    decreases s.len(),
{
    if s.len() == 0 {
        (Seq::empty(), Seq::empty())
    } else {
        let (ps, cur) = split_slash(s.drop_last());
        if s.last() == '/' {
            (ps.push(cur), Seq::empty())
        } else {
            (ps, cur.push(s.last()))
        }
    }
}

pub open spec fn path_parts(s: Seq<char>) -> Seq<Seq<char>> {
    split_slash(s).0.push(split_slash(s).1)
}

/// Whether part `i` is a component of the path (`Path::components`): empty
/// parts and `.` parts are dropped, except a leading `.`.
pub open spec fn is_component(parts: Seq<Seq<char>>, i: int) -> bool {
    parts[i].len() > 0 && (i == 0 || !(parts[i].len() == 1 && parts[i][0] == '.'))
}

pub open spec fn component_count(parts: Seq<Seq<char>>, n: int) -> nat
    decreases n,
{
    if n <= 0 {
        0
    } else {
        component_count(parts, n - 1) + if is_component(parts, n - 1) {
            1nat
        } else {
            0nat
        }
    }
}

/// A binary given by an explicit path (absolute, or with a directory part)
/// rather than a bare name looked up on `PATH`.
pub open spec fn explicit_bin_spec(bin: Seq<char>) -> bool {
    (bin.len() > 0 && bin[0] == '/') || component_count(path_parts(bin), path_parts(bin).len() as int)
        > 1
}

proof fn lemma_component_count_push(parts: Seq<Seq<char>>, x: Seq<char>, n: int)
    requires
        n <= parts.len(),
    ensures
        component_count(parts.push(x), n) == component_count(parts, n),
    decreases n,
{
    if n > 0 {
        lemma_component_count_push(parts, x, n - 1);
        assert(parts.push(x)[n - 1] == parts[n - 1]);
    }
}

fn part_is_component(cur: &Vec<char>, index: usize) -> (r: bool)
    ensures
        r == (cur@.len() > 0 && (index == 0 || !(cur@.len() == 1 && cur@[0] == '.'))),
{
    cur.len() > 0 && (index == 0 || !(cur.len() == 1 && cur[0] == '.'))
}

/// Whether `bin` names a file by path (checked to exist) rather than a
/// command looked up on `PATH`.
pub fn is_explicit_bin(bin: &str) -> (r: bool)
    ensures
        r == explicit_bin_spec(bin@),
{
    let cs = chars_of(bin);
    let mut done: usize = 0;
    let mut count: usize = 0;
    let mut cur: Vec<char> = Vec::new();
    let mut i: usize = 0;
    assert(cs@.take(0) =~= Seq::<char>::empty());
    while i < cs.len()
        invariant
            i <= cs.len(),
            cs@ == bin@,
            done == split_slash(cs@.take(i as int)).0.len(),
            done <= i,
            count <= done,
            cur@ == split_slash(cs@.take(i as int)).1,
            count == component_count(split_slash(cs@.take(i as int)).0, done as int),
        decreases cs.len() - i,
    {
        let ghost pre = split_slash(cs@.take(i as int));
        assert(cs@.take(i + 1).drop_last() =~= cs@.take(i as int));
        if cs[i] == '/' {
            let c = part_is_component(&cur, done);
            proof {
                let ps = pre.0.push(pre.1);
                lemma_component_count_push(pre.0, pre.1, done as int);
                assert(ps[done as int] == cur@);
            }
            if c {
                count = count + 1;
            }
            done = done + 1;
            cur = Vec::new();
        } else {
            cur.push(cs[i]);
        }
        i = i + 1;
    }
    assert(cs@.take(cs.len() as int) =~= cs@);
    let last = part_is_component(&cur, done);
    proof {
        let pre = split_slash(cs@);
        lemma_component_count_push(pre.0, pre.1, done as int);
        assert(path_parts(cs@)[done as int] == cur@);
    }
    (cs.len() > 0 && cs[0] == '/') || count > 1 || (last && count >= 1)
}

pub open spec fn not_executable_msg(bin: Seq<char>) -> Seq<char> {
    "`"@ + bin + "` is not an executable file"@
}

pub open spec fn not_on_path_msg(bin: Seq<char>) -> Seq<char> {
    "`"@ + bin + "` not found on PATH; the flake dev shell provides it (run inside `nix develop`)"@
}

pub open spec fn unpaired_msg(conf_path: Seq<char>) -> Seq<char> {
    "rmapi is not paired (no conf at "@ + conf_path
        + "). Pair once by running `rmapi` with a code from https://my.remarkable.com/device/desktop/connect"@
}

pub open spec fn blank_tokens_msg(conf_path: Seq<char>) -> Seq<char> {
    "rmapi conf at "@ + conf_path + " has blank tokens; re-pair by running `rmapi`"@
}

/// The error for a binary that did not resolve.
pub open spec fn bin_error_msg(bin: Seq<char>) -> Seq<char> {
    if explicit_bin_spec(bin) {
        not_executable_msg(bin)
    } else {
        not_on_path_msg(bin)
    }
}

/// `<dir>/rmapi/rmapi.conf` under `RMAPI_XDG_HOME`, else under
/// `XDG_CONFIG_HOME`, else `<HOME>/.config/rmapi/rmapi.conf` (rmapi's own
/// lookup order).
pub open spec fn conf_path_spec(
    rmapi_xdg_home: Option<Seq<char>>,
    xdg_config_home: Option<Seq<char>>,
    home: Option<Seq<char>>,
) -> Seq<char> {
    match rmapi_xdg_home {
        Some(p) => join_path(p, "rmapi/rmapi.conf"@),
        None => match xdg_config_home {
            Some(p) => join_path(p, "rmapi/rmapi.conf"@),
            None => join_path(
                match home {
                    Some(h) => h,
                    None => Seq::empty(),
                },
                ".config/rmapi/rmapi.conf"@,
            ),
        },
    }
}

pub open spec fn opt_view(o: Option<String>) -> Option<Seq<char>> {
    match o {
        Some(s) => Some(s@),
        None => None,
    }
}

/// Where rmapi keeps its pairing config, from the values of the
/// `RMAPI_XDG_HOME`, `XDG_CONFIG_HOME` and `HOME` environment variables.
pub fn default_conf_path(
    rmapi_xdg_home: Option<String>,
    xdg_config_home: Option<String>,
    home: Option<String>,
) -> (r: String)
    ensures
        r@ == conf_path_spec(opt_view(rmapi_xdg_home), opt_view(xdg_config_home), opt_view(home)),
{
    match rmapi_xdg_home {
        Some(p) => {
            join(p.as_str(), "rmapi/rmapi.conf")
        },
        None => match xdg_config_home {
            Some(p) => join(p.as_str(), "rmapi/rmapi.conf"),
            None => match home {
                Some(h) => join(h.as_str(), ".config/rmapi/rmapi.conf"),
                None => {
                    proof {
                        reveal_strlit("");
                    }
                    join("", ".config/rmapi/rmapi.conf")
                },
            },
        },
    }
}

fn message(a: &str, b: &str, c: &str) -> (r: DeployError)
    ensures
        r.message@ == a@ + b@ + c@,
{
    let mut v: Vec<char> = Vec::new();
    extend_str(&mut v, a);
    extend_str(&mut v, b);
    extend_str(&mut v, c);
    DeployError { message: string_of(&v) }
}

/// The pairing state of the real rmapi binary: its path, its config path and
/// a snapshot of a config known to hold both tokens, restored when a failed
/// call blanks the config.
#[derive(Debug)]
pub struct ProcessRmapi {
    bin: String,
    conf_path: String,
    snapshot: Vec<u8>,
}

impl ProcessRmapi {
    pub closed spec fn bin_spec(&self) -> Seq<char> {
        self.bin@
    }

    pub closed spec fn conf_path_spec(&self) -> Seq<char> {
        self.conf_path@
    }

    pub closed spec fn snapshot_spec(&self) -> Seq<u8> {
        self.snapshot@
    }

    /// The `rmapi` binary on `PATH` with the config at `conf_path`.
    /// `bin_found` says whether `rmapi` was found on `PATH`; `conf` is the
    /// config's content, `None` when it could not be read.
    pub fn new(conf_path: String, bin_found: bool, conf: Option<Vec<u8>>) -> (r: Result<
        ProcessRmapi,
        DeployError,
    >)
        ensures
            !bin_found ==> (r matches Err(e) && e.message@ == not_on_path_msg("rmapi"@)),
            bin_found && conf is None ==> (r matches Err(e) && e.message@ == unpaired_msg(
                conf_path@,
            )),
            conf matches Some(c) ==> (bin_found && blank_conf_spec(c@) ==> (r matches Err(e)
                && e.message@ == blank_tokens_msg(conf_path@))),
            conf matches Some(c) ==> (bin_found && !blank_conf_spec(c@) ==> (r matches Ok(p)
                && p.bin_spec() == "rmapi"@ && p.conf_path_spec() == conf_path@
                && p.snapshot_spec() == c@)),
    {
        let mut v: Vec<char> = Vec::new();
        extend_str(&mut v, "rmapi");
        let bin = string_of(&v);
        proof {
            reveal_strlit("rmapi");
            assert(!explicit_bin_spec("rmapi"@)) by {
                let s = "rmapi"@;
                assert(s.len() == 5);
                assert forall|k: int| 0 <= k <= 5 implies split_slash(s.take(k)).0.len() == 0
                    && split_slash(s.take(k)).1 == s.take(k) by {
                    lemma_no_slash(s, k);
                }
                assert(s.take(5) =~= s);
                assert(path_parts(s).len() == 1);
                assert(component_count(path_parts(s), 0) == 0);
            }
        }
        ProcessRmapi::with(bin, conf_path, bin_found, conf)
    }

    /// Explicit binary and config paths, both checked before any upload:
    /// `bin_found` says whether `bin` resolved (an existing file for an
    /// explicit path, found on `PATH` for a bare name); `conf` is the config's
    /// content, `None` when it could not be read.
    pub fn with(bin: String, conf_path: String, bin_found: bool, conf: Option<Vec<u8>>) -> (r:
        Result<ProcessRmapi, DeployError>)
        ensures
            !bin_found ==> (r matches Err(e) && e.message@ == bin_error_msg(bin@)),
            bin_found && conf is None ==> (r matches Err(e) && e.message@ == unpaired_msg(
                conf_path@,
            )),
            conf matches Some(c) ==> (bin_found && blank_conf_spec(c@) ==> (r matches Err(e)
                && e.message@ == blank_tokens_msg(conf_path@))),
            conf matches Some(c) ==> (bin_found && !blank_conf_spec(c@) ==> (r matches Ok(p)
                && p.bin_spec() == bin@ && p.conf_path_spec() == conf_path@
                && p.snapshot_spec() == c@)),
    {
        if !bin_found {
            let e = if is_explicit_bin(bin.as_str()) {
                message("`", bin.as_str(), "` is not an executable file")
            } else {
                message("`", bin.as_str(), "` not found on PATH; the flake dev shell provides it (run inside `nix develop`)")
            };
            return Err(e);
        }
        match conf {
            None => Err(
                message("rmapi is not paired (no conf at ", conf_path.as_str(), "). Pair once by running `rmapi` with a code from https://my.remarkable.com/device/desktop/connect"),
            ),
            Some(snapshot) => {
                if is_blank_conf(snapshot.as_slice()) {
                    Err(
                        message("rmapi conf at ", conf_path.as_str(), " has blank tokens; re-pair by running `rmapi`"),
                    )
                } else {
                    Ok(ProcessRmapi { bin, conf_path, snapshot })
                }
            },
        }
    }

    pub fn bin(&self) -> (r: &str)
        ensures
            r@ == self.bin_spec(),
    {
        self.bin.as_str()
    }

    pub fn conf_path(&self) -> (r: &str)
        ensures
            r@ == self.conf_path_spec(),
    {
        self.conf_path.as_str()
    }

    pub fn snapshot(&self) -> (r: &[u8])
        ensures
            r@ == self.snapshot_spec(),
    {
        self.snapshot.as_slice()
    }
}

proof fn lemma_no_slash(s: Seq<char>, k: int)
    requires
        0 <= k <= s.len(),
        forall|j: int| 0 <= j < s.len() ==> s[j] != '/',
    ensures
        split_slash(s.take(k)).0.len() == 0,
        split_slash(s.take(k)).1 == s.take(k),
    decreases k,
{
    if k > 0 {
        lemma_no_slash(s, k - 1);
        assert(s.take(k).drop_last() =~= s.take(k - 1));
        assert(s.take(k - 1).push(s[k - 1]) =~= s.take(k));
    } else {
        assert(s.take(0) =~= Seq::<char>::empty());
    }
}

// ---------------------------------------------------------------------------
// A guarded rmapi call
// ---------------------------------------------------------------------------

/// Where a guarded call stands. It starts with the first attempt under way.
#[derive(Debug, Clone, Copy, PartialEq, Eq, Structural)]
pub enum GuardState {
    /// The first attempt is running.
    FirstTry,
    /// The first attempt failed; the config is being checked.
    FirstFailed,
    /// The config was blank; the snapshot is being written back.
    Restoring,
    /// The snapshot is back; the second and last attempt is running.
    Retrying,
    /// Finished, with whether the call succeeded.
    Done(bool),
}

/// What the caller observed after the last action.
#[derive(Debug, Clone, Copy, PartialEq, Eq, Structural)]
pub enum GuardEvent {
    /// An attempt ended, successfully or not.
    Attempted(bool),
    /// The config was read back: whether it is blank (or unreadable).
    ConfChecked(bool),
    /// The snapshot was written back.
    Restored,
}

/// What the caller does next.
#[derive(Debug, Clone, Copy, PartialEq, Eq, Structural)]
pub enum GuardAction {
    /// Run rmapi once more with the same arguments.
    Attempt,
    /// Read the config and report whether it is blank.
    CheckConf,
    /// Write the snapshot back over the config.
    RestoreSnapshot,
    /// Stop: the call succeeded or failed.
    Finish(bool),
}

/// One step of a guarded call: a failed first attempt that left the config
/// blank gets the snapshot restored and one retry; anything else finishes.
pub open spec fn guard_spec(state: GuardState, event: GuardEvent) -> (GuardState, GuardAction) {
    match (state, event) {
        (GuardState::FirstTry, GuardEvent::Attempted(true)) => (
            GuardState::Done(true),
            GuardAction::Finish(true),
        ),
        (GuardState::FirstTry, GuardEvent::Attempted(false)) => (
            GuardState::FirstFailed,
            GuardAction::CheckConf,
        ),
        (GuardState::FirstFailed, GuardEvent::ConfChecked(true)) => (
            GuardState::Restoring,
            GuardAction::RestoreSnapshot,
        ),
        (GuardState::Restoring, GuardEvent::Restored) => (
            GuardState::Retrying,
            GuardAction::Attempt,
        ),
        (GuardState::Retrying, GuardEvent::Attempted(ok)) => (
            GuardState::Done(ok),
            GuardAction::Finish(ok),
        ),
        (GuardState::Done(ok), _) => (GuardState::Done(ok), GuardAction::Finish(ok)),
        _ => (GuardState::Done(false), GuardAction::Finish(false)),
    }
}

/// The state and action a guarded call starts with: the first attempt.
pub fn guard_start() -> (r: (GuardState, GuardAction))
    ensures
        r == (GuardState::FirstTry, GuardAction::Attempt),
{
    (GuardState::FirstTry, GuardAction::Attempt)
}

/// The next state and action of a guarded call.
pub fn guard_step(state: GuardState, event: GuardEvent) -> (r: (GuardState, GuardAction))
    ensures
        r == guard_spec(state, event),
{
    match (state, event) {
        (GuardState::FirstTry, GuardEvent::Attempted(true)) => (
            GuardState::Done(true),
            GuardAction::Finish(true),
        ),
        (GuardState::FirstTry, GuardEvent::Attempted(false)) => (
            GuardState::FirstFailed,
            GuardAction::CheckConf,
        ),
        (GuardState::FirstFailed, GuardEvent::ConfChecked(true)) => (
            GuardState::Restoring,
            GuardAction::RestoreSnapshot,
        ),
        (GuardState::Restoring, GuardEvent::Restored) => (
            GuardState::Retrying,
            GuardAction::Attempt,
        ),
        (GuardState::Retrying, GuardEvent::Attempted(ok)) => (
            GuardState::Done(ok),
            GuardAction::Finish(ok),
        ),
        (GuardState::Done(ok), _) => (GuardState::Done(ok), GuardAction::Finish(ok)),
        _ => (GuardState::Done(false), GuardAction::Finish(false)),
    }
}

/// The actions a guarded call takes from `state` in answer to `events`.
pub open spec fn guard_trace(state: GuardState, events: Seq<GuardEvent>) -> Seq<GuardAction>
    decreases events.len(),
{
    if events.len() == 0 {
        Seq::empty()
    } else {
        let (next, action) = guard_spec(state, events[0]);
        seq![action] + guard_trace(next, events.drop_first())
    }
}

proof fn lemma_trace_len(state: GuardState, events: Seq<GuardEvent>)
    ensures
        guard_trace(state, events).len() == events.len(),
    decreases events.len(),
{
    if events.len() > 0 {
        let (next, action) = guard_spec(state, events[0]);
        lemma_trace_len(next, events.drop_first());
    }
}

pub open spec fn attempt_count(actions: Seq<GuardAction>) -> nat
    decreases actions.len(),
{
    if actions.len() == 0 {
        0
    } else {
        attempt_count(actions.drop_first()) + if actions[0] == GuardAction::Attempt {
            1nat
        } else {
            0nat
        }
    }
}

/// How many more attempts a guarded call may still start from `state`.
pub open spec fn attempts_left(state: GuardState) -> nat {
    match state {
        GuardState::FirstTry => 1,
        GuardState::FirstFailed => 1,
        GuardState::Restoring => 1,
        _ => 0,
    }
}

proof fn lemma_attempts_bounded(state: GuardState, events: Seq<GuardEvent>)
    ensures
        attempt_count(guard_trace(state, events)) <= attempts_left(state),
    decreases events.len(),
{
    if events.len() > 0 {
        let (next, action) = guard_spec(state, events[0]);
        lemma_attempts_bounded(next, events.drop_first());
        let t = guard_trace(state, events);
        assert(t.drop_first() =~= guard_trace(next, events.drop_first()));
    }
}

/// A guarded call runs rmapi at most twice, whatever it observes: the first
/// attempt and at most one retry.
pub proof fn guarded_call_attempts_at_most_twice(events: Seq<GuardEvent>)
    ensures
        attempt_count(seq![guard_start_action()] + guard_trace(GuardState::FirstTry, events)) <= 2,
{
    lemma_attempts_bounded(GuardState::FirstTry, events);
    let t = seq![guard_start_action()] + guard_trace(GuardState::FirstTry, events);
    assert(t.drop_first() =~= guard_trace(GuardState::FirstTry, events));
}

/// The action a guarded call starts with.
pub open spec fn guard_start_action() -> GuardAction {
    GuardAction::Attempt
}

/// A guarded call writes the snapshot back only in answer to a config found
/// blank.
pub proof fn guarded_call_restores_only_blank_conf(state: GuardState, events: Seq<GuardEvent>)
    ensures
        forall|i: int|
            0 <= i < events.len() && guard_trace(state, events)[i] == GuardAction::RestoreSnapshot
                ==> events[i] == GuardEvent::ConfChecked(true),
    decreases events.len(),
{
    if events.len() > 0 {
        let (next, action) = guard_spec(state, events[0]);
        guarded_call_restores_only_blank_conf(next, events.drop_first());
        lemma_trace_len(next, events.drop_first());
        let t = guard_trace(state, events);
        assert forall|i: int|
            0 <= i < events.len() && t[i] == GuardAction::RestoreSnapshot implies events[i]
            == GuardEvent::ConfChecked(true) by {
            if i > 0 {
                assert(t[i] == guard_trace(next, events.drop_first())[i - 1]);
                assert(events[i] == events.drop_first()[i - 1]);
            }
        }
    }
}

/// A guarded call reports success only after an attempt that succeeded.
pub proof fn guarded_call_success_needs_successful_attempt(events: Seq<GuardEvent>)
    ensures
        forall|i: int|
            0 <= i < events.len() && guard_trace(GuardState::FirstTry, events)[i]
                == GuardAction::Finish(true) ==> exists|j: int|
                0 <= j <= i && events[j] == GuardEvent::Attempted(true),
{
    lemma_success_traced(GuardState::FirstTry, events);
}

proof fn lemma_success_traced(state: GuardState, events: Seq<GuardEvent>)
    ensures
        forall|i: int|
            0 <= i < events.len() && guard_trace(state, events)[i] == GuardAction::Finish(true)
                ==> state == GuardState::Done(true) || exists|j: int|
                0 <= j <= i && events[j] == GuardEvent::Attempted(true),
    decreases events.len(),
{
    if events.len() > 0 {
        let (next, action) = guard_spec(state, events[0]);
        lemma_success_traced(next, events.drop_first());
        lemma_trace_len(next, events.drop_first());
        let t = guard_trace(state, events);
        assert forall|i: int|
            0 <= i < events.len() && t[i] == GuardAction::Finish(true) implies state
            == GuardState::Done(true) || exists|j: int|
            0 <= j <= i && events[j] == GuardEvent::Attempted(true) by {
            if i == 0 {
                if state != GuardState::Done(true) {
                    assert(events[0] == GuardEvent::Attempted(true));
                }
            } else {
                assert(t[i] == guard_trace(next, events.drop_first())[i - 1]);
                if next == GuardState::Done(true) {
                    if state != GuardState::Done(true) {
                        assert(events[0] == GuardEvent::Attempted(true));
                    }
                } else {
                    let j = choose|j: int|
                        0 <= j <= i - 1 && events.drop_first()[j] == GuardEvent::Attempted(true);
                    assert(events[j + 1] == GuardEvent::Attempted(true));
                }
            }
        }
    }
}

} // verus!
