//! Mutable, backend-agnostic model of a prospective process invocation:
//! argv, environment, working directory.
//!
//! An argument is either text or an opaque platform string that cannot
//! be represented as text; the script-hook pipeline must reject the
//! latter.  The environment is a list of variables with pairwise
//! distinct names, so a name determines at most one value.

use vstd::prelude::*;

verus! {

/// One argv element: representable text, or an opaque platform string.
pub enum Arg {
    Text(String),
    Opaque,
}

/// The mathematical value of an argument: its characters, if it is text.
pub open spec fn arg_view(a: Arg) -> Option<Seq<char>> {
    match a {
        Arg::Text(s) => Some(s@),
        Arg::Opaque => None,
    }
}

/// The mathematical value of an argv: each argument's characters.
pub open spec fn argv_view(argv: Seq<Arg>) -> Seq<Option<Seq<char>>> {
    argv.map_values(|a: Arg| arg_view(a))
}

/// Whether every argument of a rendered argv is representable as text.
pub open spec fn all_text(argv: Seq<Option<Seq<char>>>) -> bool {
    forall|i: int| 0 <= i < argv.len() ==> argv[i] is Some
}

/// One environment variable.
pub struct EnvVar {
    pub key: String,
    pub value: String,
}

/// Environment well-formedness: variable names are pairwise distinct.
pub open spec fn env_wf(e: Seq<EnvVar>) -> bool {
    forall|i: int, j: int| 0 <= i < e.len() && 0 <= j < e.len() && i != j ==> e[i].key@ != e[j].key@
}

/// Whether some variable of `e` has name `k`.
pub open spec fn env_has(e: Seq<EnvVar>, k: Seq<char>) -> bool {
    exists|i: int| 0 <= i < e.len() && e[i].key@ == k
}

/// Whether `e` binds name `k` to value `v`.
pub open spec fn env_maps_to(e: Seq<EnvVar>, k: Seq<char>, v: Seq<char>) -> bool {
    exists|i: int| 0 <= i < e.len() && e[i].key@ == k && e[i].value@ == v
}

/// The mathematical value of an optional string.
pub open spec fn opt_str_view(o: Option<String>) -> Option<Seq<char>> {
    match o {
        Some(s) => Some(s@),
        None => None,
    }
}

/// A prospective process invocation in mutable form.
pub struct CommandBuilder {
    pub argv: Vec<Arg>,
    pub env: Vec<EnvVar>,
    pub cwd: Option<String>,
}

impl CommandBuilder {
    /// Whether this builder is well formed: distinct environment names.
    pub open spec fn wf(&self) -> bool {
        env_wf(self.env@)
    }

    /// An empty invocation: no argv, no environment, no directory.
    pub fn new() -> (c: CommandBuilder)
        ensures
            c.argv@.len() == 0,
            c.env@.len() == 0,
            c.cwd is None,
            c.wf(),
    {
        CommandBuilder { argv: Vec::new(), env: Vec::new(), cwd: None }
    }

    /// Sets the working directory, replacing any previous one.
    pub fn set_cwd(&mut self, dir: String)
        ensures
            final(self).argv@ == old(self).argv@,
            final(self).env@ == old(self).env@,
            final(self).cwd == Some(dir),
            old(self).wf() ==> final(self).wf(),
    {
        self.cwd = Some(dir);
    }

    /// Clears the working directory.
    pub fn clear_cwd(&mut self)
        ensures
            final(self).argv@ == old(self).argv@,
            final(self).env@ == old(self).env@,
            final(self).cwd is None,
            old(self).wf() ==> final(self).wf(),
    {
        self.cwd = None;
    }

    /// Removes every environment variable.
    pub fn env_clear(&mut self)
        ensures
            final(self).argv@ == old(self).argv@,
            final(self).env@.len() == 0,
            final(self).cwd == old(self).cwd,
            final(self).wf(),
    {
        self.env = Vec::new();
    }

    /// Binds `key` to `value`, replacing the previous binding of `key`
    /// if one exists and leaving every other binding unchanged.
    pub fn env(&mut self, key: &String, value: &String)
        requires
            old(self).wf(),
        ensures
            final(self).wf(),
            final(self).argv@ == old(self).argv@,
            final(self).cwd == old(self).cwd,
            env_maps_to(final(self).env@, key@, value@),
            env_has(final(self).env@, key@),
            forall|k: Seq<char>, v: Seq<char>|
                k != key@ ==> (env_maps_to(old(self).env@, k, v) <==> env_maps_to(
                    final(self).env@,
                    k,
                    v,
                )),
            forall|k: Seq<char>|
                k != key@ ==> (env_has(old(self).env@, k) <==> env_has(final(self).env@, k)),
    {
        let n = self.env.len();
        let mut i: usize = 0;
        while i < n
            invariant
                n == self.env.len(),
                i <= n,
                *self == *old(self),
                old(self).wf(),
                forall|j: int| 0 <= j < i ==> self.env@[j].key@ != key@,
            decreases n - i,
        {
            if self.env[i].key == *key {
                let entry = EnvVar { key: key.clone(), value: value.clone() };
                self.env.set(i, entry);
                proof {
                    let e_old = old(self).env@;
                    let e_new = self.env@;
                    assert(e_new.len() == e_old.len());
                    assert(env_wf(e_old));
                    assert(e_new[i as int].key@ == key@);
                    assert(forall|w: int|
                        0 <= w < e_old.len() && w != i ==> e_new[w] == e_old[w]);
                    assert forall|w1: int, w2: int|
                        0 <= w1 < e_new.len() && 0 <= w2 < e_new.len() && w1 != w2 implies e_new[w1].key@
                        != e_new[w2].key@ by {
                        assert(e_new[w1].key@ == e_old[w1].key@);
                        assert(e_new[w2].key@ == e_old[w2].key@);
                        assert(e_old[w1].key@ != e_old[w2].key@);
                    };
                    assert(env_wf(e_new));
                    assert forall|k: Seq<char>, v: Seq<char>| k != key@ implies (env_maps_to(
                        e_old,
                        k,
                        v,
                    ) <==> env_maps_to(e_new, k, v)) by {
                        if env_maps_to(e_old, k, v) {
                            let w = choose|w: int|
                                0 <= w < e_old.len() && e_old[w].key@ == k && e_old[w].value@ == v;
                            assert(e_new[w].key@ == k && e_new[w].value@ == v);
                        }
                        if env_maps_to(e_new, k, v) {
                            let w = choose|w: int|
                                0 <= w < e_new.len() && e_new[w].key@ == k && e_new[w].value@ == v;
                            assert(e_old[w].key@ == k && e_old[w].value@ == v);
                        }
                    };
                    assert forall|k: Seq<char>| k != key@ implies (env_has(e_old, k) <==> env_has(
                        e_new,
                        k,
                    )) by {
                        if env_has(e_old, k) {
                            let w = choose|w: int| 0 <= w < e_old.len() && e_old[w].key@ == k;
                            assert(e_new[w].key@ == k);
                        }
                        if env_has(e_new, k) {
                            let w = choose|w: int| 0 <= w < e_new.len() && e_new[w].key@ == k;
                            assert(e_old[w].key@ == k);
                        }
                    };
                }
                return ;
            }
            i = i + 1;
        }
        let entry = EnvVar { key: key.clone(), value: value.clone() };
        self.env.push(entry);
        proof {
            let e_old = old(self).env@;
            let e_new = self.env@;
            let last = e_old.len() as int;
            assert(e_new[last].key@ == key@ && e_new[last].value@ == value@);
            assert(forall|w: int| 0 <= w < e_old.len() ==> e_new[w] == e_old[w]);
            assert forall|w1: int, w2: int|
                0 <= w1 < e_new.len() && 0 <= w2 < e_new.len() && w1 != w2 implies e_new[w1].key@
                != e_new[w2].key@ by {
                if w1 < last && w2 < last {
                    assert(e_old[w1].key@ != e_old[w2].key@);
                } else if w1 == last {
                    assert(e_old[w2].key@ != key@);
                } else {
                    assert(e_old[w1].key@ != key@);
                }
            };
            assert(env_wf(e_new));
            assert forall|k: Seq<char>, v: Seq<char>| k != key@ implies (env_maps_to(e_old, k, v)
                <==> env_maps_to(e_new, k, v)) by {
                if env_maps_to(e_old, k, v) {
                    let w = choose|w: int|
                        0 <= w < e_old.len() && e_old[w].key@ == k && e_old[w].value@ == v;
                    assert(e_new[w].key@ == k && e_new[w].value@ == v);
                }
                if env_maps_to(e_new, k, v) {
                    let w = choose|w: int|
                        0 <= w < e_new.len() && e_new[w].key@ == k && e_new[w].value@ == v;
                    assert(w != last);
                    assert(e_old[w].key@ == k && e_old[w].value@ == v);
                }
            };
            assert forall|k: Seq<char>| k != key@ implies (env_has(e_old, k) <==> env_has(
                e_new,
                k,
            )) by {
                if env_has(e_old, k) {
                    let w = choose|w: int| 0 <= w < e_old.len() && e_old[w].key@ == k;
                    assert(e_new[w].key@ == k);
                }
                if env_has(e_new, k) {
                    let w = choose|w: int| 0 <= w < e_new.len() && e_new[w].key@ == k;
                    assert(w != last);
                    assert(e_old[w].key@ == k);
                }
            };
        }
    }
}

/// A portable command-request record: the serialized form handed to and
/// returned by a script-hook callback.
pub struct SpawnRecord {
    pub label: Option<String>,
    pub domain_name: String,
    pub args: Option<Vec<String>>,
    pub env: Vec<EnvVar>,
    pub cwd: Option<String>,
}

/// Clones an optional string, preserving its value.
pub fn clone_opt_string(o: &Option<String>) -> (r: Option<String>)
    ensures
        r == o,
{
    match o {
        Some(s) => Some(s.clone()),
        None => None,
    }
}

/// Clones a vector of strings element by element, preserving its value.
pub fn clone_vec_string(v: &Vec<String>) -> (r: Vec<String>)
    ensures
        r@ == v@,
{
    let mut out: Vec<String> = Vec::new();
    let n = v.len();
    let mut i: usize = 0;
    while i < n
        invariant
            n == v.len(),
            i <= n,
            out@ == v@.subrange(0, i as int),
        decreases n - i,
    {
        out.push(v[i].clone());
        proof {
            assert(out@ == v@.subrange(0, i + 1 as int));
        }
        i = i + 1;
    }
    proof {
        assert(v@.subrange(0, n as int) == v@);
    }
    out
}

/// Clones an argument, preserving its value.
pub fn clone_arg(a: &Arg) -> (r: Arg)
    ensures
        r == a,
{
    match a {
        Arg::Text(s) => Arg::Text(s.clone()),
        Arg::Opaque => Arg::Opaque,
    }
}

/// Clones an argv element by element, preserving its value.
pub fn clone_vec_arg(v: &Vec<Arg>) -> (r: Vec<Arg>)
    ensures
        r@ == v@,
{
    let mut out: Vec<Arg> = Vec::new();
    let n = v.len();
    let mut i: usize = 0;
    while i < n
        invariant
            n == v.len(),
            i <= n,
            out@ == v@.subrange(0, i as int),
        decreases n - i,
    {
        out.push(clone_arg(&v[i]));
        proof {
            assert(out@ == v@.subrange(0, i + 1 as int));
        }
        i = i + 1;
    }
    proof {
        assert(v@.subrange(0, n as int) == v@);
    }
    out
}

/// Clones an environment list element by element, preserving its value.
pub fn clone_env_list(v: &Vec<EnvVar>) -> (r: Vec<EnvVar>)
    ensures
        r@ == v@,
{
    let mut out: Vec<EnvVar> = Vec::new();
    let n = v.len();
    let mut i: usize = 0;
    while i < n
        invariant
            n == v.len(),
            i <= n,
            out@ == v@.subrange(0, i as int),
        decreases n - i,
    {
        let entry = EnvVar { key: v[i].key.clone(), value: v[i].value.clone() };
        out.push(entry);
        proof {
            assert(v@[i as int] == EnvVar { key: v@[i as int].key, value: v@[i as int].value });
            assert(out@ == v@.subrange(0, i + 1 as int));
        }
        i = i + 1;
    }
    proof {
        assert(v@.subrange(0, n as int) == v@);
    }
    out
}

} // verus!
