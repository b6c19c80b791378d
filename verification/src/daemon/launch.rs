//! What a service process is launched with: its environment and its output streams.

use vstd::prelude::*;

use crate::config::LogSink;
use crate::daemon::pid_file::lookup;
use crate::error::{Fault, ProcessManagerError};
use crate::names::NameMap;
use crate::text::{
    chars_of, copy_texts, find_char, first_of, lemma_first_of, lemma_first_of_is, lines, lines_of,
    string_of, texts, trim, trimmed,
};

verus! {

/// The variables that a map of strings binds.
pub open spec fn vars_of(m: NameMap<String>) -> Map<Seq<char>, Seq<char>> {
    m@.map_values(|s: String| s@)
}

/// A value without one pair of surrounding double quotes.
pub open spec fn unquoted(v: Seq<char>) -> Seq<char> {
    if v.len() >= 2 && v[0] == '"' && v.last() == '"' {
        v.subrange(1, v.len() - 1)
    } else {
        v
    }
}

/// What a line of an environment file assigns. Blank lines, comments and lines without `=` assign
/// nothing.
pub open spec fn assignment(line: Seq<char>) -> Option<(Seq<char>, Seq<char>)> {
    let l = trimmed(line);
    let eq = first_of(l, '=');
    if l.len() == 0 || l[0] == '#' || eq >= l.len() {
        None
    } else {
        Some((trimmed(l.take(eq)), unquoted(trimmed(l.skip(eq + 1)))))
    }
}

/// The variables that the lines of an environment file bind: the first assignment of a name wins.
pub open spec fn file_vars(lines: Seq<Seq<char>>) -> Map<Seq<char>, Seq<char>>
    decreases lines.len(),
{
    if lines.len() == 0 {
        Map::empty()
    } else {
        let before = file_vars(lines.drop_last());
        match assignment(lines.last()) {
            Some((key, value)) => if before.contains_key(key) {
                before
            } else {
                before.insert(key, value)
            },
            None => before,
        }
    }
}

fn parse_assignment(line: &str) -> (r: Option<(String, String)>)
    ensures
        match r {
            Some((k, v)) => assignment(line@) == Some((k@, v@)),
            None => assignment(line@) is None,
        },
{
    let l = trim(line);
    let v = chars_of(l.as_str());
    if v.len() == 0 || v[0] == '#' {
        return None;
    }
    let eq = find_char(&v, 0, '=');
    assert(v@.skip(0) =~= l@);
    if eq >= v.len() {
        return None;
    }
    let key = string_of(&v, 0, eq);
    let value = string_of(&v, eq + 1, v.len());
    assert(key@ =~= l@.take(eq as int));
    assert(value@ =~= l@.skip(eq + 1));
    let key = trim(key.as_str());
    let value = trim(value.as_str());
    let w = chars_of(value.as_str());
    if w.len() >= 2 && w[0] == '"' && w[w.len() - 1] == '"' {
        Some((key, string_of(&w, 1, w.len() - 1)))
    } else {
        Some((key, value))
    }
}

/// One binding laid over others.
pub open spec fn overlaid(
    base: Map<Seq<char>, Seq<char>>,
    pairs: Seq<(String, String)>,
) -> Map<Seq<char>, Seq<char>>
    decreases pairs.len(),
{
    if pairs.len() == 0 {
        base
    } else {
        overlaid(base, pairs.drop_last()).insert(pairs.last().0@, pairs.last().1@)
    }
}

fn lay_over(vars: &mut NameMap<String>, pairs: &Vec<(String, String)>)
    ensures
        vars_of(*final(vars)) == overlaid(vars_of(*old(vars)), pairs@),
{
    let ghost base = vars_of(*vars);
    let mut i: usize = 0;
    assert(pairs@.take(0) =~= Seq::<(String, String)>::empty());
    while i < pairs.len()
        invariant
            i <= pairs.len(),
            vars_of(*vars) == overlaid(base, pairs@.take(i as int)),
        decreases pairs.len() - i,
    {
        let ghost before = vars_of(*vars);
        vars.insert(pairs[i].0.as_str(), pairs[i].1.clone());
        assert(vars_of(*vars) =~= before.insert(pairs@[i as int].0@, pairs@[i as int].1@));
        i = i + 1;
        assert(pairs@.take(i as int).drop_last() =~= pairs@.take(i - 1));
    }
    assert(pairs@.take(pairs.len() as int) =~= pairs@);
}

/// The variables that a service's configuration binds: those of its environment file, when it
/// could be read, overridden by the inline ones.
pub open spec fn service_vars(file: Option<Seq<char>>, inline: Seq<(String, String)>) -> Map<
    Seq<char>,
    Seq<char>,
> {
    overlaid(
        match file {
            Some(content) => file_vars(lines_of(content)),
            None => Map::empty(),
        },
        inline,
    )
}

/// Builds the environment of a service from the content of its environment file and its inline
/// variables, which override the file's.
pub fn collect_service_env(file: Option<&str>, inline: &Vec<(String, String)>) -> (r: NameMap<
    String,
>)
    ensures
        vars_of(r) == service_vars(crate::text::opt_str(file), inline@),
{
    let mut vars: NameMap<String> = NameMap::new();
    assert(vars_of(vars) =~= Map::<Seq<char>, Seq<char>>::empty());
    if let Some(content) = file {
        let ls = lines(content);
        let ghost all = texts(ls@);
        let mut i: usize = 0;
        assert(all.take(0) =~= Seq::<Seq<char>>::empty());
        while i < ls.len()
            invariant
                i <= ls.len(),
                all == texts(ls@),
                vars_of(vars) == file_vars(all.take(i as int)),
            decreases ls.len() - i,
        {
            let ghost before = vars_of(vars);
            assert(all[i as int] == ls@[i as int]@);
            assert(all.take(i + 1).drop_last() =~= all.take(i as int));
            match parse_assignment(ls[i].as_str()) {
                Some((key, value)) => {
                    if !vars.has(key.as_str()) {
                        vars.insert(key.as_str(), value);
                        assert(vars_of(vars) =~= before.insert(key@, value@));
                    }
                },
                None => {},
            }
            i = i + 1;
        }
        assert(all.take(ls.len() as int) =~= all);
    }
    lay_over(&mut vars, inline);
    vars
}

/// How the environment of a child process differs from the supervisor's own.
pub struct LaunchEnv {
    /// Whether nothing is inherited.
    pub clear: bool,
    /// The variables to set.
    pub vars: NameMap<String>,
    /// The variables to take away afterwards.
    pub strip: Vec<String>,
}

/// What an environment becomes when each of `names` is taken away.
pub open spec fn stripped(
    env: Map<Seq<char>, Seq<char>>,
    names: Seq<Seq<char>>,
) -> Map<Seq<char>, Seq<char>> {
    env.restrict(Set::new(|k: Seq<char>| !names.contains(k)))
}

impl LaunchEnv {
    /// The environment that the child sees when the supervisor's is `inherited`.
    pub open spec fn seen(&self, inherited: Map<Seq<char>, Seq<char>>) -> Map<Seq<char>, Seq<char>> {
        let base = if self.clear {
            Map::empty()
        } else {
            inherited
        };
        stripped(base.union_prefer_right(vars_of(self.vars)), texts(self.strip@))
    }
}

/// Whether a process starts from a clean environment.
pub open spec fn starts_clean(drops_privileges: bool, inherit_env: Option<bool>) -> bool {
    drops_privileges && inherit_env != Some(true)
}

/// Variables with a search path where a clean environment needs one.
pub open spec fn with_path(
    vars: Map<Seq<char>, Seq<char>>,
    clear: bool,
    default_path: Seq<char>,
) -> Map<Seq<char>, Seq<char>> {
    if clear && !vars.contains_key("PATH"@) {
        vars.insert("PATH"@, default_path)
    } else {
        vars
    }
}

/// A process that drops privileges inherits nothing unless it is asked to; one that keeps them always
/// inherits.
pub proof fn law_dropping_privileges_drops_the_environment(inherit_env: Option<bool>)
    ensures
        !starts_clean(false, inherit_env),
        starts_clean(true, None),
        starts_clean(true, Some(false)),
        !starts_clean(true, Some(true)),
{
}

/// A clean environment always has a search path, the service's own where it binds one; nothing else
/// is added, and a process that inherits gets no path of its own accord.
pub proof fn law_clean_environment_has_a_path(
    vars: Map<Seq<char>, Seq<char>>,
    clear: bool,
    default_path: Seq<char>,
    name: Seq<char>,
)
    ensures
        clear ==> with_path(vars, clear, default_path).contains_key("PATH"@),
        vars.contains_key("PATH"@) ==> with_path(vars, clear, default_path) == vars,
        !clear ==> with_path(vars, clear, default_path) == vars,
        clear && !vars.contains_key("PATH"@) ==> with_path(vars, clear, default_path)["PATH"@]
            == default_path,
        name != "PATH"@ ==> lookup(with_path(vars, clear, default_path), name) == lookup(
            vars,
            name,
        ),
{
}

/// Plans the environment of a service process. `overrides` come with the user it runs as. A process
/// that drops privileges starts from a clean environment, with a default search path, unless
/// `inherit_env` says otherwise. Variables that belong to a login session are taken away unless the
/// service lists its own in `strip`.
pub fn launch_env(
    collected: NameMap<String>,
    overrides: &Vec<(String, String)>,
    drops_privileges: bool,
    inherit_env: Option<bool>,
    default_path: &str,
    strip: Option<Vec<String>>,
    session_scoped: &Vec<String>,
) -> (r: LaunchEnv)
    ensures
        r.clear == (drops_privileges && inherit_env != Some(true)),
        r.clear == starts_clean(drops_privileges, inherit_env),
        vars_of(r.vars) == with_path(
            overlaid(vars_of(collected), overrides@),
            r.clear,
            default_path@,
        ),
        vars_of(r.vars) == ({
            let merged = overlaid(vars_of(collected), overrides@);
            if r.clear && !merged.contains_key("PATH"@) {
                merged.insert("PATH"@, default_path@)
            } else {
                merged
            }
        }),
        texts(r.strip@) == (match strip {
            Some(own) => texts(own@),
            None => texts(session_scoped@),
        }),
{
    let mut vars = collected;
    lay_over(&mut vars, overrides);
    let inherit = match inherit_env {
        Some(b) => b,
        None => false,
    };
    let clear = drops_privileges && !inherit;
    if clear && !vars.has("PATH") {
        let ghost before = vars_of(vars);
        vars.insert("PATH", default_path.to_owned());
        assert(vars_of(vars) =~= before.insert("PATH"@, default_path@));
    }
    let strip = match strip {
        Some(own) => own,
        None => copy_texts(session_scoped),
    };
    LaunchEnv { clear, vars, strip }
}

/// The variable that tells a command which service it runs for.
pub const SERVICE_NAME_VAR: &'static str = "SYSG_SERVICE_NAME";

/// Plans the environment of a command run on a service's behalf: the service's variables on top of
/// the supervisor's, without those of a login session. The service name is set last, so it is never
/// taken away; the plan therefore leaves it out of `strip`.
pub fn set_service_env(
    collected: NameMap<String>,
    strip: Option<Vec<String>>,
    session_scoped: &Vec<String>,
    service: &str,
) -> (r: LaunchEnv)
    ensures
        !r.clear,
        vars_of(r.vars) == vars_of(collected).insert(SERVICE_NAME_VAR@, service@),
        forall|k: Seq<char>| #[trigger]
            texts(r.strip@).contains(k) <==> (k != SERVICE_NAME_VAR@ && match strip {
                Some(own) => texts(own@).contains(k),
                None => texts(session_scoped@).contains(k),
            }),
{
    let mut vars = collected;
    let ghost before = vars_of(vars);
    vars.insert(SERVICE_NAME_VAR, service.to_owned());
    assert(vars_of(vars) =~= before.insert(SERVICE_NAME_VAR@, service@));
    let all = match strip {
        Some(own) => own,
        None => copy_texts(session_scoped),
    };
    let mut kept: Vec<String> = Vec::new();
    let mut i: usize = 0;
    while i < all.len()
        invariant
            i <= all.len(),
            forall|k: Seq<char>| #[trigger]
                texts(kept@).contains(k) <==> (k != SERVICE_NAME_VAR@ && texts(all@).take(
                    i as int,
                ).contains(k)),
        decreases all.len() - i,
    {
        let ghost kept0 = kept@;
        let ghost names = texts(all@);
        assert(names[i as int] == all@[i as int]@);
        assert(names.take(i + 1) =~= names.take(i as int).push(names[i as int]));
        if !crate::text::same(all[i].as_str(), SERVICE_NAME_VAR) {
            kept.push(all[i].clone());
            assert(texts(kept@) =~= texts(kept0).push(names[i as int]));
        }
        proof {
            assert forall|k: Seq<char>| #[trigger] texts(kept@).contains(k) <==> (k
                != SERVICE_NAME_VAR@ && names.take(i + 1).contains(k)) by {
                lemma_push_contains(names.take(i as int), names[i as int], k);
                lemma_push_contains(texts(kept0), names[i as int], k);
            }
        }
        i = i + 1;
    }
    assert(texts(all@).take(all.len() as int) =~= texts(all@));
    LaunchEnv { clear: false, vars, strip: kept }
}

proof fn lemma_push_contains(s: Seq<Seq<char>>, x: Seq<char>, k: Seq<char>)
    ensures
        s.push(x).contains(k) <==> s.contains(k) || x == k,
{
    if s.contains(k) {
        let i = choose|i: int| 0 <= i < s.len() && s[i] == k;
        assert(s.push(x)[i] == k);
    }
    assert(s.push(x)[s.len() as int] == x);
    if s.push(x).contains(k) {
        let i = choose|i: int| 0 <= i < s.push(x).len() && s.push(x)[i] == k;
        if i < s.len() {
            assert(s[i] == k);
        }
    }
}

/// Nothing that is to be taken away reaches the child, and a child that starts from a clean
/// environment sees nothing that it was not given.
pub proof fn law_environment_is_contained(
    plan: LaunchEnv,
    inherited: Map<Seq<char>, Seq<char>>,
    name: Seq<char>,
)
    ensures
        texts(plan.strip@).contains(name) ==> !plan.seen(inherited).contains_key(name),
        plan.clear && plan.seen(inherited).contains_key(name) ==> lookup(
            vars_of(plan.vars),
            name,
        ) == Some(plan.seen(inherited)[name]),
{
}

/// Inline variables win over those of the environment file.
pub proof fn law_inline_overrides_file(
    file: Option<Seq<char>>,
    inline: Seq<(String, String)>,
    i: int,
)
    requires
        0 <= i < inline.len(),
        forall|j: int| i < j < inline.len() ==> (#[trigger] inline[j]).0@ != inline[i].0@,
    ensures
        service_vars(file, inline).contains_key(inline[i].0@),
        service_vars(file, inline)[inline[i].0@] == inline[i].1@,
{
    let base = match file {
        Some(content) => file_vars(lines_of(content)),
        None => Map::empty(),
    };
    lemma_overlaid(base, inline, i);
}

proof fn lemma_overlaid(base: Map<Seq<char>, Seq<char>>, pairs: Seq<(String, String)>, i: int)
    requires
        0 <= i < pairs.len(),
        forall|j: int| i < j < pairs.len() ==> (#[trigger] pairs[j]).0@ != pairs[i].0@,
    ensures
        overlaid(base, pairs).contains_key(pairs[i].0@),
        overlaid(base, pairs)[pairs[i].0@] == pairs[i].1@,
    decreases pairs.len(),
{
    if i < pairs.len() - 1 {
        assert(pairs.last() == pairs[pairs.len() - 1]);
        let front = pairs.drop_last();
        assert forall|j: int| i < j < front.len() implies (#[trigger] front[j]).0@ != front[i].0@ by {
            assert(front[j] == pairs[j]);
        }
        lemma_overlaid(base, front, i);
        assert(front[i] == pairs[i]);
    }
}

// ---------------------------------------------------------------------------
// Output streams
// ---------------------------------------------------------------------------

/// What a stream of a child process is connected to.
#[derive(Debug, Clone, Copy, PartialEq, Eq, Structural)]
pub enum Stream {
    /// A pipe that the supervisor reads.
    Piped,
    /// Nothing.
    Null,
}

/// What the standard output and standard error of a service are connected to.
pub open spec fn streams_for(sink: LogSink, pipe_stderr: bool) -> (Stream, Stream) {
    (
        if sink is File {
            Stream::Piped
        } else {
            Stream::Null
        },
        if sink is File || pipe_stderr {
            Stream::Piped
        } else {
            Stream::Null
        },
    )
}

/// Output that is kept in files is read whole; output that is discarded is not read, but for standard
/// error where it is asked for.
pub proof fn law_discarded_output_is_not_read(pipe_stderr: bool)
    ensures
        streams_for(LogSink::File, pipe_stderr) == (Stream::Piped, Stream::Piped),
        streams_for(LogSink::Discard, false) == (Stream::Null, Stream::Null),
        streams_for(LogSink::Discard, true) == (Stream::Null, Stream::Piped),
{
}

/// What the standard output and standard error of a service are connected to.
pub fn service_streams(sink: LogSink, pipe_stderr: bool) -> (r: (Stream, Stream))
    ensures
        r == streams_for(sink, pipe_stderr),
        r.0 == if sink is File {
            Stream::Piped
        } else {
            Stream::Null
        },
        r.1 == if sink is File || pipe_stderr {
            Stream::Piped
        } else {
            Stream::Null
        },
{
    match sink {
        LogSink::File => (Stream::Piped, Stream::Piped),
        LogSink::Discard => if pipe_stderr {
            (Stream::Null, Stream::Piped)
        } else {
            (Stream::Null, Stream::Null)
        },
    }
}

/// A line of a service's standard error as it is echoed to the console.
pub fn echoed_stderr(service: &str, line: &str) -> (r: String)
    ensures
        r@ == "["@ + service@ + ":stderr] "@ + line@,
{
    let mut s = "[".to_owned();
    s.append(service);
    s.append(":stderr] ");
    s.append(line);
    s
}

/// How a launch went.
pub enum Launch {
    /// The process could not be spawned.
    NotSpawned(Fault),
    /// The process runs, but its output could not be read.
    NotLogged {
        /// The process.
        pid: u32,
        /// What went wrong.
        fault: Fault,
    },
    /// The process runs.
    Up {
        /// The process.
        pid: u32,
        /// Its process group, when it could be told.
        pgid: Option<i32>,
    },
}

/// What to do about a launch.
pub struct LaunchVerdict {
    /// The process to terminate together with its group, when the launch is given up.
    pub terminate: Option<u32>,
    /// The process and its group, or why there is none. A process whose group cannot be told leads
    /// its own.
    pub outcome: Result<(u32, Option<i32>), ProcessManagerError>,
}

/// Settles a launch: a process whose output cannot be read is terminated again.
pub fn settle_launch(service: &str, launch: Launch) -> (r: LaunchVerdict)
    ensures
        match launch {
            Launch::NotSpawned(fault) => {
                &&& r.terminate is None
                &&& r.outcome matches Err(ProcessManagerError::ServiceStartError {
                    service: s,
                    source,
                })
                &&& s@ == service@
                &&& source == fault
            },
            Launch::NotLogged { pid, fault } => {
                &&& r.terminate == Some(pid)
                &&& r.outcome matches Err(ProcessManagerError::ServiceStartError {
                    service: s,
                    source,
                })
                &&& s@ == service@
                &&& source == fault
            },
            Launch::Up { pid, pgid } => {
                &&& r.terminate is None
                &&& r.outcome == Ok::<(u32, Option<i32>), ProcessManagerError>(
                    (pid, Some(if pgid is Some { pgid->0 } else { #[verifier::truncate] (pid as i32) })),
                )
            },
        },
{
    match launch {
        Launch::NotSpawned(source) => LaunchVerdict {
            terminate: None,
            outcome: Err(
                ProcessManagerError::ServiceStartError { service: service.to_owned(), source },
            ),
        },
        Launch::NotLogged { pid, fault } => LaunchVerdict {
            terminate: Some(pid),
            outcome: Err(
                ProcessManagerError::ServiceStartError { service: service.to_owned(), source: fault },
            ),
        },
        Launch::Up { pid, pgid } => {
            let group: i32 = match pgid {
                Some(g) => g,
                None => #[verifier::truncate] (pid as i32),
            };
            LaunchVerdict { terminate: None, outcome: Ok((pid, Some(group))) }
        },
    }
}

/// What a child sees of a variable: nothing when the variable is taken away; else what the plan binds
/// it to; else, unless the plan starts from nothing, what the supervisor has.
pub proof fn law_child_sees_what_is_planned(
    plan: LaunchEnv,
    inherited: Map<Seq<char>, Seq<char>>,
    name: Seq<char>,
)
    requires
        !texts(plan.strip@).contains(name),
    ensures
        vars_of(plan.vars).contains_key(name) ==> lookup(plan.seen(inherited), name) == lookup(
            vars_of(plan.vars),
            name,
        ),
        !vars_of(plan.vars).contains_key(name) && !plan.clear ==> lookup(plan.seen(inherited), name)
            == lookup(inherited, name),
        !vars_of(plan.vars).contains_key(name) && plan.clear ==> lookup(plan.seen(inherited), name)
            is None,
{
}

/// Blank lines, comments and lines without an equals sign assign nothing; any other line assigns what
/// follows its first equals sign, less one pair of quotes, to what stands before it.
pub proof fn law_line_assigns_by_its_first_equals(key: Seq<char>, value: Seq<char>)
    requires
        !key.contains('='),
        key.len() > 0,
        key[0] != '#',
        trimmed(key.push('=') + value) == key.push('=') + value,
    ensures
        assignment(key.push('=') + value) is Some,
        (assignment(key.push('=') + value)->0).0 == trimmed(key),
        trimmed(value).len() >= 2 && trimmed(value)[0] == '"' && trimmed(value).last() == '"' ==> (
        assignment(key.push('=') + value)->0).1 == trimmed(value).subrange(
            1,
            trimmed(value).len() - 1,
        ),
        trimmed(value).len() < 2 || trimmed(value)[0] != '"' || trimmed(value).last() != '"' ==> (
        assignment(key.push('=') + value)->0).1 == trimmed(value),
{
    let l = key.push('=') + value;
    assert(l[0] == key[0]);
    assert forall|j: int| 0 <= j < key.len() implies l[j] != '=' by {
        assert(l[j] == key[j]);
    }
    lemma_first_of_is(l, '=', key.len() as int);
    assert(l.take(key.len() as int) =~= key);
    assert(l.skip(key.len() as int + 1) =~= value);
}

/// A line that is blank or a comment, or has no equals sign, assigns nothing.
pub proof fn law_other_lines_assign_nothing(line: Seq<char>)
    requires
        trimmed(line).len() == 0 || trimmed(line)[0] == '#' || !trimmed(line).contains('='),
    ensures
        assignment(line) is None,
{
    lemma_first_of(trimmed(line), '=');
}

/// The first line of an environment file that assigns a name decides about it, and only a name that
/// some line assigns is bound.
pub proof fn law_first_assignment_counts(lines: Seq<Seq<char>>, i: int, name: Seq<char>)
    ensures
        0 <= i < lines.len() && assignment(lines[i]) is Some && (assignment(lines[i])->0).0 == name
            && (forall|j: int|
            0 <= j < i && assignment(#[trigger] lines[j]) is Some ==> (assignment(lines[j])->0).0
                != name) ==> lookup(file_vars(lines), name) == Some((assignment(lines[i])->0).1),
        (forall|j: int|
            0 <= j < lines.len() && assignment(#[trigger] lines[j]) is Some ==> (assignment(
                lines[j],
            )->0).0 != name) ==> !file_vars(lines).contains_key(name),
    decreases lines.len(),
{
    if lines.len() > 0 {
        let front = lines.drop_last();
        law_first_assignment_counts(front, i, name);
        assert(forall|j: int| 0 <= j < front.len() ==> front[j] == lines[j]);
        assert(lines[lines.len() - 1] == lines.last());
    }
}

/// What is laid over other bindings leaves names alone that it does not bind.
pub proof fn law_inline_leaves_other_names(
    base: Map<Seq<char>, Seq<char>>,
    pairs: Seq<(String, String)>,
    name: Seq<char>,
)
    requires
        forall|j: int| 0 <= j < pairs.len() ==> (#[trigger] pairs[j]).0@ != name,
    ensures
        lookup(overlaid(base, pairs), name) == lookup(base, name),
    decreases pairs.len(),
{
    if pairs.len() > 0 {
        let front = pairs.drop_last();
        assert(forall|j: int| 0 <= j < front.len() ==> front[j] == pairs[j]);
        assert(pairs[pairs.len() - 1].0@ != name);
        law_inline_leaves_other_names(base, front, name);
    }
}

} // verus!
