//! Where logs live on disk: names, paths, and telling log files apart.

use vstd::prelude::*;
use vstd::utf8::encode_utf8;

use crate::error::LogsManagerError;
use crate::paths::{join_path, joined_path};
use crate::text::{
    after_last, chars_of, contains, decimal, ends, ends_with, last_of, lower_char, occurs, opt_str,
    parse_number, parsed, push_decimal, same, starts, starts_with, string_of, texts,
};

verus! {

// ---------------------------------------------------------------------------
// Service names
// ---------------------------------------------------------------------------

/// Whether a service name cannot lead out of the log directory: it is a single file name.
pub open spec fn is_safe_name(service: Seq<char>) -> bool {
    &&& service.len() > 0
    &&& encode_utf8(service).len() <= 255
    &&& service != "."@
    &&& service != ".."@
    &&& forall|i: int|
        0 <= i < service.len() ==> (#[trigger] service[i]) != '/' && service[i] != '\\' && service[i]
            != '\0'
}

/// Rejects a service name that could lead out of the log directory.
pub fn validate_service_name(service: &str) -> (r: Result<(), LogsManagerError>)
    ensures
        match r {
            Ok(()) => is_safe_name(service@),
            Err(LogsManagerError::InvalidServiceName(s)) => !is_safe_name(service@) && s@ == service@,
            Err(_) => false,
        },
{
    let v = chars_of(service);
    let mut bad = v.len() == 0 || service.as_bytes().len() > 255 || same(service, ".") || same(
        service,
        "..",
    );
    let mut i: usize = 0;
    while i < v.len() && !bad
        invariant
            i <= v.len(),
            v@ == service@,
            !bad ==> service@.len() > 0 && encode_utf8(service@).len() <= 255 && service@ != "."@
                && service@ != ".."@,
            !bad ==> forall|j: int|
                0 <= j < i ==> (#[trigger] service@[j]) != '/' && service@[j] != '\\' && service@[j]
                    != '\0',
            bad ==> !is_safe_name(service@),
        decreases v.len() - i,
    {
        let c = v[i];
        assert(service@[i as int] == c);
        if c == '/' || c == '\\' || c == '\0' {
            bad = true;
        }
        i = i + 1;
    }
    if bad {
        Err(LogsManagerError::InvalidServiceName(service.to_owned()))
    } else {
        Ok(())
    }
}

/// How the name of a log ends: that of a stream names the stream; the merged log has none.
pub open spec fn log_suffix(kind: Option<Seq<char>>) -> Seq<char> {
    match kind {
        Some(k) => "_"@ + k + ".log"@,
        None => ".log"@,
    }
}

fn suffix_of(kind: Option<&str>) -> (r: String)
    ensures
        r@ == log_suffix(opt_str(kind)),
{
    match kind {
        Some(k) => {
            let mut s = "_".to_owned();
            s.append(k);
            s.append(".log");
            s
        },
        None => ".log".to_owned(),
    }
}

/// The file name of a service's log.
pub open spec fn log_file_name(service: Seq<char>, kind: Option<Seq<char>>) -> Seq<char> {
    service + log_suffix(kind)
}

/// The log files of a service with a safe name stand in the log directory itself: their names hold
/// no separator.
pub proof fn law_safe_name_stays_in_log_dir(service: Seq<char>, kind: Option<Seq<char>>)
    requires
        is_safe_name(service),
        kind is None || kind == Some("stdout"@) || kind == Some("stderr"@),
    ensures
        forall|i: int|
            0 <= i < log_file_name(service, kind).len() ==> (#[trigger] log_file_name(service, kind)[i])
                != '/',
{
    reveal_strlit("_");
    reveal_strlit(".log");
    reveal_strlit("stdout");
    reveal_strlit("stderr");
    let name = log_file_name(service, kind);
    assert forall|i: int| 0 <= i < name.len() implies (#[trigger] name[i]) != '/' by {
        if i < service.len() {
            assert(name[i] == service[i]);
        } else {
            assert(name[i] == log_suffix(kind)[i - service.len()]);
        }
    }
}

/// The path of a service's log.
pub open spec fn canonical_path(dir: Seq<char>, service: Seq<char>, kind: Option<Seq<char>>) -> Seq<
    char,
> {
    joined_path(dir, log_file_name(service, kind))
}

/// The path of a service's log, whether or not it exists.
pub fn canonical_log_path(dir: &str, service: &str, kind: Option<&str>) -> (r: String)
    ensures
        r@ == canonical_path(dir@, service@, opt_str(kind)),
{
    let mut name = service.to_owned();
    name.append(suffix_of(kind).as_str());
    join_path(dir, name.as_str())
}

/// The path of the supervisor's own log.
pub fn supervisor_log_path(dir: &str) -> (r: String)
    ensures
        r@ == joined_path(dir@, "supervisor.log"@),
{
    join_path(dir, "supervisor.log")
}

// ---------------------------------------------------------------------------
// Finding logs that were written under a similar name
// ---------------------------------------------------------------------------

/// Whether a character is an ASCII letter or digit.
pub open spec fn is_alphanumeric(c: char) -> bool {
    'a' <= c <= 'z' || 'A' <= c <= 'Z' || '0' <= c <= '9'
}

/// A name reduced to its letters and digits, in lower case.
pub open spec fn reduced(s: Seq<char>) -> Seq<char>
    decreases s.len(),
{
    if s.len() == 0 {
        seq![]
    } else if is_alphanumeric(s.last()) {
        reduced(s.drop_last()).push(lower_char(s.last()))
    } else {
        reduced(s.drop_last())
    }
}

/// A name reduced to its letters and digits, in lower case.
pub fn normalize(name: &str) -> (r: String)
    ensures
        r@ == reduced(name@),
{
    let v = chars_of(name);
    let mut out = String::new();
    let mut i: usize = 0;
    assert(v@.take(0) =~= Seq::<char>::empty());
    while i < v.len()
        invariant
            i <= v.len(),
            out@ == reduced(v@.take(i as int)),
        decreases v.len() - i,
    {
        let c = v[i];
        assert(v@.take(i + 1).drop_last() =~= v@.take(i as int));
        if 'A' <= c && c <= 'Z' {
            out.push((c as u8 + 32) as char);
        } else if ('a' <= c && c <= 'z') || ('0' <= c && c <= '9') {
            out.push(c);
        }
        i = i + 1;
    }
    assert(v@.take(v.len() as int) =~= v@);
    out
}

/// Whether a file is the log of a service under a similar name. The merged log is never mistaken
/// for another kind.
pub open spec fn is_log_of(file_name: Seq<char>, service: Seq<char>, kind: Option<Seq<char>>) -> bool {
    let suffix = log_suffix(kind);
    &&& ends(file_name, suffix)
    &&& kind is None ==> file_name != "supervisor.log"@ && !ends(file_name, "_stdout.log"@)
        && !ends(file_name, "_stderr.log"@)
    &&& reduced(file_name.take(file_name.len() - suffix.len())) == reduced(service)
}

fn file_is_log_of(file_name: &str, service: &str, kind: Option<&str>) -> (r: bool)
    ensures
        r == is_log_of(file_name@, service@, opt_str(kind)),
{
    let suffix = suffix_of(kind);
    if !ends_with(file_name, suffix.as_str()) {
        return false;
    }
    if kind.is_none() && (same(file_name, "supervisor.log") || ends_with(file_name, "_stdout.log")
        || ends_with(file_name, "_stderr.log")) {
        return false;
    }
    let v = chars_of(file_name);
    let n: usize = v.len() - suffix.as_str().unicode_len();
    let stem = string_of(&v, 0, n);
    assert(stem@ =~= file_name@.take(n as int));
    same(normalize(stem.as_str()).as_str(), normalize(service).as_str())
}

/// The first of the files that is a log of the service.
pub open spec fn first_log(
    files: Seq<Seq<char>>,
    service: Seq<char>,
    kind: Option<Seq<char>>,
) -> Option<Seq<char>>
    decreases files.len(),
{
    if files.len() == 0 {
        None
    } else if is_log_of(files[0], service, kind) {
        Some(files[0])
    } else {
        first_log(files.drop_first(), service, kind)
    }
}

/// The path at which a service's log is found: its own when it exists, else that of the first file
/// in the directory with a similar name, else its own after all.
pub open spec fn found_path(
    dir: Seq<char>,
    service: Seq<char>,
    kind: Option<Seq<char>>,
    exists_there: bool,
    files: Seq<Seq<char>>,
) -> Seq<char> {
    if exists_there {
        canonical_path(dir, service, kind)
    } else {
        match first_log(files, service, kind) {
            Some(name) => joined_path(dir, name),
            None => canonical_path(dir, service, kind),
        }
    }
}

/// Finds the log of a service in a directory that holds `files`; `exists_there` tells whether it
/// stands under its own name.
fn find_log(
    dir: &str,
    service: &str,
    kind: Option<&str>,
    exists_there: bool,
    files: &Vec<String>,
) -> (r: String)
    ensures
        r@ == found_path(dir@, service@, opt_str(kind), exists_there, texts(files@)),
{
    if exists_there {
        return canonical_log_path(dir, service, kind);
    }
    let ghost all = texts(files@);
    let ghost k = opt_str(kind);
    let mut i: usize = 0;
    assert(all.skip(0) =~= all);
    while i < files.len()
        invariant
            !exists_there,
            i <= files.len(),
            all == texts(files@),
            k == opt_str(kind),
            first_log(all, service@, k) == first_log(all.skip(i as int), service@, k),
        decreases files.len() - i,
    {
        assert(all.skip(i as int)[0] == files@[i as int]@);
        assert(all.skip(i as int).drop_first() =~= all.skip(i + 1));
        if file_is_log_of(files[i].as_str(), service, kind) {
            return join_path(dir, files[i].as_str());
        }
        i = i + 1;
    }
    canonical_log_path(dir, service, kind)
}

/// The path of a service's log for one stream: where it stands, or else a file in the directory
/// under a similar name, or else where it would stand.
pub fn resolve_log_path(
    dir: &str,
    service: &str,
    kind: &str,
    exists_there: bool,
    files: &Vec<String>,
) -> (r: String)
    ensures
        r@ == found_path(dir@, service@, Some(kind@), exists_there, texts(files@)),
{
    find_log(dir, service, Some(kind), exists_there, files)
}

/// The path of a service's log for one stream.
pub fn get_log_path(
    dir: &str,
    service: &str,
    kind: &str,
    exists_there: bool,
    files: &Vec<String>,
) -> (r: String)
    ensures
        r@ == found_path(dir@, service@, Some(kind@), exists_there, texts(files@)),
{
    resolve_log_path(dir, service, kind, exists_there, files)
}

/// The path of a service's merged log.
pub fn get_service_log_path(dir: &str, service: &str, exists_there: bool, files: &Vec<String>) -> (r:
    String)
    ensures
        r@ == found_path(dir@, service@, None, exists_there, texts(files@)),
{
    find_log(dir, service, None, exists_there, files)
}

/// The file name under which a dynamically spawned child's output is kept.
pub open spec fn spawn_log_name(
    owner: Option<Seq<char>>,
    child: Seq<char>,
    pid: u32,
    kind: Seq<char>,
) -> Seq<char> {
    let o = match owner {
        Some(s) => if reduced(s).len() > 0 {
            reduced(s)
        } else {
            "dynamic"@
        },
        None => "dynamic"@,
    };
    let c = if reduced(child).len() > 0 {
        reduced(child)
    } else {
        "child"@
    };
    o + "_"@ + c + "_"@ + decimal(pid as nat) + "_"@ + kind + ".log"@
}

/// The path at which a dynamically spawned child's output is kept.
pub fn dynamic_child_log_path(dir: &str, owner: Option<&str>, child: &str, pid: u32, kind: &str) -> (r:
    String)
    ensures
        r@ == joined_path(
            joined_path(dir@, "spawn"@),
            spawn_log_name(opt_str(owner), child@, pid, kind@),
        ),
{
    let mut name = match owner {
        Some(s) => {
            let n = normalize(s);
            if n.as_str().unicode_len() > 0 {
                n
            } else {
                "dynamic".to_owned()
            }
        },
        None => "dynamic".to_owned(),
    };
    name.append("_");
    let c = normalize(child);
    if c.as_str().unicode_len() > 0 {
        name.append(c.as_str());
    } else {
        name.append("child");
    }
    name.append("_");
    push_decimal(&mut name, pid as u64);
    name.append("_");
    name.append(kind);
    name.append(".log");
    let spawn = join_path(dir, "spawn");
    join_path(spawn.as_str(), name.as_str())
}

// ---------------------------------------------------------------------------
// Rotated backups
// ---------------------------------------------------------------------------

/// Whether a file is a rotated backup, such as `supervisor.log.2`.
pub open spec fn is_backup(name: Seq<char>) -> bool {
    let dot = last_of(name, '.');
    &&& dot >= 0
    &&& ends(name.take(dot), ".log"@)
    &&& parsed(name.skip(dot + 1), usize::MAX as nat) is Some
}

/// Whether a file is a rotated backup, such as `supervisor.log.2`.
pub fn is_rotated_backup(file_name: &str) -> (r: bool)
    ensures
        r == is_backup(file_name@),
{
    let v = chars_of(file_name);
    let a = after_last(&v, '.');
    if a == 0 {
        return false;
    }
    let stem = string_of(&v, 0, a - 1);
    let suffix = string_of(&v, a, v.len());
    assert(stem@ =~= file_name@.take(a - 1));
    assert(suffix@ =~= file_name@.skip(a as int));
    ends_with(stem.as_str(), ".log") && parse_number(suffix.as_str(), usize::MAX as u64).is_some()
}

/// The number of a rotated backup of the log called `base`.
pub open spec fn backup_number(base: Seq<char>, name: Seq<char>) -> Option<nat> {
    let prefix = base + "."@;
    if starts(name, prefix) {
        parsed(name.skip(prefix.len() as int), usize::MAX as nat)
    } else {
        None
    }
}

/// The number of a rotated backup of the log called `base`.
pub fn rotation_number(base: &str, name: &str) -> (r: Option<u64>)
    ensures
        match r {
            Some(n) => backup_number(base@, name@) == Some(n as nat) && n <= usize::MAX,
            None => backup_number(base@, name@) is None,
        },
{
    let mut prefix = base.to_owned();
    prefix.append(".");
    if !starts_with(name, prefix.as_str()) {
        return None;
    }
    let v = chars_of(name);
    let n: usize = prefix.as_str().unicode_len();
    let rest = string_of(&v, n, v.len());
    assert(rest@ =~= name@.skip(n as int));
    parse_number(rest.as_str(), usize::MAX as u64)
}

/// The name of the `index`-th rotated backup of a log.
pub fn rotated_log_path(path: &str, index: u64) -> (r: String)
    ensures
        r@ == path@ + "."@ + decimal(index as nat),
{
    let mut r = path.to_owned();
    r.append(".");
    push_decimal(&mut r, index);
    r
}

/// A backup's name gives its number back.
pub proof fn law_backup_number_round_trip(base: Seq<char>, index: u64)
    requires
        index <= usize::MAX,
    ensures
        backup_number(base, base + "."@ + decimal(index as nat)) == Some(index as nat),
{
    let prefix = base + "."@;
    let name = prefix + decimal(index as nat);
    assert(name.subrange(0, prefix.len() as int) =~= prefix);
    assert(name.skip(prefix.len() as int) =~= decimal(index as nat));
    crate::text::law_decimal_round_trip(index as nat, usize::MAX as nat);
}

/// What clearing all logs does to a file.
#[derive(Debug, Clone, Copy, PartialEq, Eq, Structural)]
pub enum ClearAction {
    /// Empties it and removes its backups.
    Truncate,
    /// Removes it.
    Remove,
    /// Nothing.
    Keep,
}

/// What clearing all logs does to a file.
pub open spec fn clearing(name: Seq<char>) -> ClearAction {
    if name == "supervisor.log"@ || ends(name, "_stdout.log"@) || ends(name, "_stderr.log"@) || (ends(
        name,
        ".log"@,
    ) && !occurs(name, "_stdout.log"@) && !occurs(name, "_stderr.log"@)) {
        ClearAction::Truncate
    } else if !ends(name, ".log"@) && (occurs(name, "_stdout.log."@) || occurs(name, "_stderr.log."@)
        || starts(name, "supervisor.log."@)) {
        ClearAction::Remove
    } else {
        ClearAction::Keep
    }
}

/// What clearing all logs does to a file.
pub fn clear_action(name: &str) -> (r: ClearAction)
    ensures
        r == clearing(name@),
{
    let log = ends_with(name, ".log");
    if same(name, "supervisor.log") || ends_with(name, "_stdout.log") || ends_with(
        name,
        "_stderr.log",
    ) || (log && !contains(name, "_stdout.log") && !contains(name, "_stderr.log")) {
        ClearAction::Truncate
    } else if !log && (contains(name, "_stdout.log.") || contains(name, "_stderr.log.")
        || starts_with(name, "supervisor.log.")) {
        ClearAction::Remove
    } else {
        ClearAction::Keep
    }
}

/// The log of a service is the one under its own name where it exists; else the first file under a
/// similar name; else the one under its own name after all.
pub proof fn law_log_is_found_by_name(
    dir: Seq<char>,
    service: Seq<char>,
    kind: Option<Seq<char>>,
    files: Seq<Seq<char>>,
    i: int,
)
    ensures
        found_path(dir, service, kind, true, files) == canonical_path(dir, service, kind),
        (forall|j: int| 0 <= j < files.len() ==> !is_log_of(#[trigger] files[j], service, kind))
            ==> found_path(dir, service, kind, false, files) == canonical_path(dir, service, kind),
        0 <= i < files.len() && is_log_of(files[i], service, kind) && (forall|j: int|
            0 <= j < i ==> !is_log_of(#[trigger] files[j], service, kind)) ==> found_path(
            dir,
            service,
            kind,
            false,
            files,
        ) == joined_path(dir, files[i]),
{
    lemma_first_log(files, service, kind, i);
}

proof fn lemma_first_log(
    files: Seq<Seq<char>>,
    service: Seq<char>,
    kind: Option<Seq<char>>,
    i: int,
)
    ensures
        (forall|j: int| 0 <= j < files.len() ==> !is_log_of(#[trigger] files[j], service, kind))
            ==> first_log(files, service, kind) is None,
        0 <= i < files.len() && is_log_of(files[i], service, kind) && (forall|j: int|
            0 <= j < i ==> !is_log_of(#[trigger] files[j], service, kind)) ==> first_log(
            files,
            service,
            kind,
        ) == Some(files[i]),
    decreases files.len(),
{
    if files.len() > 0 {
        let rest = files.drop_first();
        lemma_first_log(rest, service, kind, i - 1);
        assert(forall|j: int| 0 <= j < rest.len() ==> rest[j] == files[j + 1]);
        if forall|j: int| 0 <= j < files.len() ==> !is_log_of(#[trigger] files[j], service, kind) {
            assert(!is_log_of(files[0], service, kind));
            assert forall|j: int| 0 <= j < rest.len() implies !is_log_of(
                #[trigger] rest[j],
                service,
                kind,
            ) by {
                assert(!is_log_of(files[j + 1], service, kind));
            }
        }
        if 0 < i < files.len() && (forall|j: int|
            0 <= j < i ==> !is_log_of(#[trigger] files[j], service, kind)) {
            assert(!is_log_of(files[0], service, kind));
            assert forall|j: int| 0 <= j < i - 1 implies !is_log_of(
                #[trigger] rest[j],
                service,
                kind,
            ) by {
                assert(!is_log_of(files[j + 1], service, kind));
            }
        }
    }
}

/// A name is similar to another when they agree in their letters and digits, whatever their case and
/// whatever else they hold.
pub proof fn law_similar_names_agree_in_letters(a: Seq<char>, b: Seq<char>, c: char)
    ensures
        reduced(a + b) == reduced(a) + reduced(b),
        !is_alphanumeric(c) ==> reduced(seq![c]) == Seq::<char>::empty(),
        'a' <= c <= 'z' || '0' <= c <= '9' ==> reduced(seq![c]) == seq![c],
        'A' <= c <= 'Z' ==> reduced(seq![c]) == seq![(c as u32 + 32) as char],
    decreases b.len(),
{
    assert(seq![c].drop_last() =~= Seq::<char>::empty());
    assert(reduced(Seq::<char>::empty()) =~= Seq::<char>::empty());
    assert(Seq::<char>::empty().push(lower_char(c)) =~= seq![lower_char(c)]);
    if b.len() == 0 {
        assert(a + b =~= a);
        assert(reduced(a) + reduced(b) =~= reduced(a));
    } else {
        law_similar_names_agree_in_letters(a, b.drop_last(), c);
        assert((a + b).drop_last() =~= a + b.drop_last());
        assert((a + b).last() == b.last());
        assert(reduced(a + b) =~= reduced(a) + reduced(b));
    }
}

/// Clearing all logs empties the logs of the supervisor and of every stream, removes their backups,
/// and keeps what is no log.
pub proof fn law_clearing_spares_other_files(name: Seq<char>)
    ensures
        name == "supervisor.log"@ ==> clearing(name) == ClearAction::Truncate,
        ends(name, "_stdout.log"@) || ends(name, "_stderr.log"@) ==> clearing(name)
            == ClearAction::Truncate,
        clearing(name) == ClearAction::Remove ==> occurs(name, "_stdout.log."@) || occurs(
            name,
            "_stderr.log."@,
        ) || starts(name, "supervisor.log."@),
        clearing(name) == ClearAction::Truncate ==> name == "supervisor.log"@ || ends(name, ".log"@)
            || ends(name, "_stdout.log"@) || ends(name, "_stderr.log"@),
        !ends(name, ".log"@) && name != "supervisor.log"@ && !ends(name, "_stdout.log"@) && !ends(
            name,
            "_stderr.log"@,
        ) && (occurs(name, "_stdout.log."@) || occurs(name, "_stderr.log."@) || starts(
            name,
            "supervisor.log."@,
        )) ==> clearing(name) == ClearAction::Remove,
{
}

} // verus!
