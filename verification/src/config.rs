//! Read-only snapshot of the live configuration: global defaults and the
//! per-backend declarations that select a command fixup strategy.
//!
//! A declaration matches a backend by exact name.  A snapshot is well
//! formed when no two declarations of the same kind share a name, so a
//! backend name matches at most one declaration of each kind.

use vstd::prelude::*;
use crate::command::{opt_str_view, Arg, CommandBuilder};

verus! {

/// Declares a secondary-OS-personality backend: commands are rewritten
/// into an invocation of the personality launcher.
pub struct WslDomain {
    pub name: String,
    pub distribution: Option<String>,
    pub username: Option<String>,
    pub default_prog: Option<Vec<String>>,
    pub default_cwd: Option<String>,
}

/// The mathematical value of a personality declaration.
pub struct WslView {
    pub name: Seq<char>,
    pub distribution: Option<Seq<char>>,
    pub username: Option<Seq<char>>,
    pub default_prog: Option<Seq<Seq<char>>>,
    pub default_cwd: Option<Seq<char>>,
}

impl View for WslDomain {
    type V = WslView;

    open spec fn view(&self) -> WslView {
        WslView {
            name: self.name@,
            distribution: match self.distribution {
                Some(s) => Some(s@),
                None => None,
            },
            username: match self.username {
                Some(s) => Some(s@),
                None => None,
            },
            default_prog: match self.default_prog {
                Some(v) => Some(v.deep_view()),
                None => None,
            },
            default_cwd: match self.default_cwd {
                Some(s) => Some(s@),
                None => None,
            },
        }
    }
}

/// A declared label for a script-hook backend: a fixed string, or a
/// callback that computes one.
pub enum LabelSpec {
    Value(String),
    Func,
}

/// The mathematical value of a declared label.
pub enum LabelView {
    Value(Seq<char>),
    Func,
}

/// Declares a script-hook backend: the final command, and optionally the
/// label, are computed by user-supplied callbacks.
pub struct ExecDomain {
    pub name: String,
    pub label: Option<LabelSpec>,
}

/// The mathematical value of a script-hook declaration.
pub struct ExecView {
    pub name: Seq<char>,
    pub label: Option<LabelView>,
}

impl View for ExecDomain {
    type V = ExecView;

    open spec fn view(&self) -> ExecView {
        ExecView {
            name: self.name@,
            label: match self.label {
                Some(LabelSpec::Value(s)) => Some(LabelView::Value(s@)),
                Some(LabelSpec::Func) => Some(LabelView::Func),
                None => None,
            },
        }
    }
}

/// A live configuration snapshot.
pub struct ConfigSnapshot {
    pub default_prog: Option<Vec<String>>,
    pub default_cwd: Option<String>,
    pub wsl_domains: Vec<WslDomain>,
    pub exec_domains: Vec<ExecDomain>,
}

/// Whether some personality declaration is named `name`.
pub open spec fn has_wsl(decls: Seq<WslDomain>, name: Seq<char>) -> bool {
    exists|i: int| 0 <= i < decls.len() && decls[i].name@ == name
}

/// The index of the personality declaration named `name`.
pub open spec fn wsl_index(decls: Seq<WslDomain>, name: Seq<char>) -> int {
    choose|i: int| 0 <= i < decls.len() && decls[i].name@ == name
}

/// Whether some script-hook declaration is named `name`.
pub open spec fn has_exec(decls: Seq<ExecDomain>, name: Seq<char>) -> bool {
    exists|i: int| 0 <= i < decls.len() && decls[i].name@ == name
}

/// The index of the script-hook declaration named `name`.
pub open spec fn exec_index(decls: Seq<ExecDomain>, name: Seq<char>) -> int {
    choose|i: int| 0 <= i < decls.len() && decls[i].name@ == name
}

impl ConfigSnapshot {
    /// Well-formedness: declaration names are pairwise distinct within
    /// each kind, so a backend name matches at most one of each.
    pub open spec fn wf(&self) -> bool {
        &&& forall|i: int, j: int|
            0 <= i < self.wsl_domains@.len() && 0 <= j < self.wsl_domains@.len() && i != j
                ==> self.wsl_domains@[i].name@ != self.wsl_domains@[j].name@
        &&& forall|i: int, j: int|
            0 <= i < self.exec_domains@.len() && 0 <= j < self.exec_domains@.len() && i != j
                ==> self.exec_domains@[i].name@ != self.exec_domains@[j].name@
    }

    /// An empty snapshot: no defaults, no declarations.
    pub fn new() -> (c: ConfigSnapshot)
        ensures
            c.default_prog is None,
            c.default_cwd is None,
            c.wsl_domains@.len() == 0,
            c.exec_domains@.len() == 0,
            c.wf(),
    {
        ConfigSnapshot {
            default_prog: None,
            default_cwd: None,
            wsl_domains: Vec::new(),
            exec_domains: Vec::new(),
        }
    }

    /// Backend-independent defaulting: fill a missing working directory
    /// from the global default.  Argv and environment are untouched;
    /// resolving a relative program against the platform's search path
    /// is a file-system lookup that belongs to the surrounding program,
    /// which hands the library the command with its program already
    /// resolved.
    pub fn apply_cmd_defaults(&self, cmd: &mut CommandBuilder)
        ensures
            final(cmd).argv@ == old(cmd).argv@,
            final(cmd).env@ == old(cmd).env@,
            opt_str_view(final(cmd).cwd) == (if old(cmd).cwd is Some {
                opt_str_view(old(cmd).cwd)
            } else {
                opt_str_view(self.default_cwd)
            }),
            old(cmd).wf() ==> final(cmd).wf(),
    {
        if cmd.cwd.is_none() {
            match &self.default_cwd {
                Some(d) => {
                    cmd.cwd = Some(d.clone());
                },
                None => {},
            }
        }
    }

    /// Synthesizes a fresh invocation from a declared program and
    /// working directory: the argv is the program rendered as text
    /// arguments (empty when none is declared, leaving the choice to
    /// the platform shell), the environment is empty, and the working
    /// directory is the declared one.
    pub fn build_prog(&self, prog: Option<&Vec<String>>, cwd: Option<&String>) -> (c:
        CommandBuilder)
        ensures
            c.wf(),
            c.env@.len() == 0,
            match prog {
                Some(p) => {
                    &&& c.argv@.len() == p@.len()
                    &&& forall|i: int|
                        0 <= i < p@.len() ==> c.argv@[i] == Arg::Text(p@[i])
                },
                None => c.argv@.len() == 0,
            },
            match cwd {
                Some(d) => c.cwd == Some(*d),
                None => c.cwd is None,
            },
    {
        let mut c = CommandBuilder::new();
        match prog {
            Some(p) => {
                let n = p.len();
                let mut i: usize = 0;
                while i < n
                    invariant
                        n == p.len(),
                        i <= n,
                        c.argv@.len() == i,
                        forall|j: int| 0 <= j < i ==> c.argv@[j] == Arg::Text(p@[j]),
                        c.env@.len() == 0,
                        c.cwd is None,
                    decreases n - i,
                {
                    c.argv.push(Arg::Text(p[i].clone()));
                    i = i + 1;
                }
            },
            None => {},
        }
        match cwd {
            Some(d) => {
                c.cwd = Some(d.clone());
            },
            None => {},
        }
        c
    }
}

/// Clones a personality declaration, preserving its value.
pub fn clone_wsl_domain(w: &WslDomain) -> (r: WslDomain)
    ensures
        r@ == w@,
{
    let r = WslDomain {
        name: w.name.clone(),
        distribution: crate::command::clone_opt_string(&w.distribution),
        username: crate::command::clone_opt_string(&w.username),
        default_prog: match &w.default_prog {
            Some(v) => Some(crate::command::clone_vec_string(v)),
            None => None,
        },
        default_cwd: crate::command::clone_opt_string(&w.default_cwd),
    };
    proof {
        match (&r.default_prog, &w.default_prog) {
            (Some(rv), Some(wv)) => {
                assert(rv.deep_view() =~= wv.deep_view());
            },
            _ => {},
        }
        assert(r@ == w@);
    }
    r
}

/// Clones a script-hook declaration, preserving its value.
pub fn clone_exec_domain(e: &ExecDomain) -> (r: ExecDomain)
    ensures
        r@ == e@,
{
    ExecDomain {
        name: e.name.clone(),
        label: match &e.label {
            Some(LabelSpec::Value(s)) => Some(LabelSpec::Value(s.clone())),
            Some(LabelSpec::Func) => Some(LabelSpec::Func),
            None => None,
        },
    }
}

} // verus!
