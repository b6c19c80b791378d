//! Which project or service a command is about.

use vstd::prelude::*;

use crate::text::{
    chars_of, find_char, first_of, lemma_first_of, lemma_first_of_is, opt_str, opt_text, same,
    string_of,
};

verus! {

/// What a command is about.
#[allow(inconsistent_fields)]
#[derive(Debug, PartialEq, Eq)]
pub enum Target {
    /// Everything the supervisor manages.
    Everything,
    /// One project.
    Project {
        /// The project.
        project: String,
    },
    /// One service.
    Service {
        /// The service.
        service: String,
        /// Its project, when it was named.
        project: Option<String>,
    },
}

/// The project named by a flag is not the one named in front of the service.
#[derive(Debug, PartialEq, Eq)]
pub struct ProjectMismatch {
    /// The project named in front of the service.
    pub prefix: String,
    /// The project named by the flag.
    pub flag: String,
}

/// What a [`Target`] says.
#[allow(inconsistent_fields)]
pub enum TargetView {
    Everything,
    Project { project: Seq<char> },
    Service { service: Seq<char>, project: Option<Seq<char>> },
}

impl View for Target {
    type V = TargetView;

    open spec fn view(&self) -> TargetView {
        match self {
            Target::Everything => TargetView::Everything,
            Target::Project { project } => TargetView::Project { project: project@ },
            Target::Service { service, project } => TargetView::Service {
                service: service@,
                project: opt_text(*project),
            },
        }
    }
}

/// A selector cut at its first slash: the project in front, when there is a slash, and the service.
pub open spec fn split_selector(s: Seq<char>) -> (Option<Seq<char>>, Seq<char>) {
    let i = first_of(s, '/');
    if i < s.len() {
        (Some(s.take(i)), s.skip(i + 1))
    } else {
        (None, s)
    }
}

/// What a selector and a project flag mean together. A project in front of the service must agree
/// with the flag.
pub open spec fn target_of(service: Option<Seq<char>>, project: Option<Seq<char>>) -> Result<
    TargetView,
    (Seq<char>, Seq<char>),
> {
    match service {
        None => match project {
            None => Ok(TargetView::Everything),
            Some(p) => Ok(TargetView::Project { project: p }),
        },
        Some(s) => match split_selector(s) {
            (None, name) => Ok(TargetView::Service { service: name, project }),
            (Some(prefix), name) => if project is Some && project->0 != prefix {
                Err((prefix, project->0))
            } else {
                Ok(TargetView::Service { service: name, project: Some(prefix) })
            },
        },
    }
}

/// Resolves a selector and a project flag.
pub fn resolve_target(service: Option<&str>, project: Option<&str>) -> (r: Result<
    Target,
    ProjectMismatch,
>)
    ensures
        match (r, target_of(opt_str(service), opt_str(project))) {
            (Ok(t), Ok(v)) => t@ == v,
            (Err(m), Err((prefix, flag))) => m.prefix@ == prefix && m.flag@ == flag,
            _ => false,
        },
{
    let own = match project {
        Some(p) => Some(p.to_owned()),
        None => None,
    };
    match service {
        None => match own {
            None => Ok(Target::Everything),
            Some(project) => Ok(Target::Project { project }),
        },
        Some(s) => {
            let v = chars_of(s);
            let i = find_char(&v, 0, '/');
            assert(v@.skip(0) =~= s@);
            if i >= v.len() {
                return Ok(Target::Service { service: s.to_owned(), project: own });
            }
            let prefix = string_of(&v, 0, i);
            let name = string_of(&v, i + 1, v.len());
            assert(prefix@ =~= s@.take(i as int));
            assert(name@ =~= s@.skip(i + 1));
            match project {
                Some(p) => {
                    if !same(p, prefix.as_str()) {
                        return Err(ProjectMismatch { prefix, flag: p.to_owned() });
                    }
                },
                None => {},
            }
            Ok(Target::Service { service: name, project: Some(prefix) })
        },
    }
}

/// A selector without a slash names a service of the project that the flag names, if any; one with a
/// slash names the project itself, and is refused exactly when the flag names another.
pub proof fn law_selector_names_its_target(
    front: Seq<char>,
    name: Seq<char>,
    project: Option<Seq<char>>,
)
    ensures
        target_of(None, None) == Ok::<TargetView, (Seq<char>, Seq<char>)>(TargetView::Everything),
        project is Some ==> target_of(None, project) == Ok::<TargetView, (Seq<char>, Seq<char>)>(
            TargetView::Project { project: project->0 },
        ),
        !name.contains('/') ==> target_of(Some(name), project) == Ok::<
            TargetView,
            (Seq<char>, Seq<char>),
        >(TargetView::Service { service: name, project }),
        !front.contains('/') && (project is None || project->0 == front) ==> target_of(
            Some(front.push('/') + name),
            project,
        ) == Ok::<TargetView, (Seq<char>, Seq<char>)>(
            TargetView::Service { service: name, project: Some(front) },
        ),
        !front.contains('/') && project is Some && project->0 != front ==> target_of(
            Some(front.push('/') + name),
            project,
        ) == Err::<TargetView, (Seq<char>, Seq<char>)>((front, project->0)),
{
    lemma_first_of(name, '/');
    let whole = front.push('/') + name;
    if !front.contains('/') {
        assert forall|j: int| 0 <= j < front.len() implies whole[j] != '/' by {
            assert(whole[j] == front[j]);
        }
        lemma_first_of_is(whole, '/', front.len() as int);
        assert(whole.take(front.len() as int) =~= front);
        assert(whole.skip(front.len() as int + 1) =~= name);
    }
}

} // verus!
