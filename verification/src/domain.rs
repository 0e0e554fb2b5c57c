//! The domain abstraction: a named execution backend with the
//! cross-backend algorithms for spawning a first session and splitting
//! an existing one, the command-construction pipeline with its three
//! fixup strategies, and the local backend.
//!
//! The pseudo-terminal subsystem, the script engine and the file system
//! are external: their outcomes enter through a [`HostPort`] value, and
//! everything decided on those outcomes is verified.

use vstd::prelude::*;
use crate::command::{
    all_text, arg_view, argv_view, clone_arg, clone_env_list, clone_opt_string, env_maps_to,
    env_wf, opt_str_view, Arg, CommandBuilder, SpawnRecord,
};
use crate::config::{
    clone_exec_domain, clone_wsl_domain, exec_index, has_exec, has_wsl, wsl_index, ConfigSnapshot,
    ExecDomain, LabelSpec, LabelView, WslDomain, WslView,
};
use crate::errors::DomainError;
use crate::ids::{
    alloc_domain_id, alloc_pane_id, alloc_tab_id, DomainId, IdAllocator, PaneId, TabId, WindowId,
};
use crate::registry::{
    has_pane_entry, has_tab, pane_in_some_tab, tab_index_of, tab_of_pane, PaneEntry, Registry,
    SplitRequest, Tab, TermSize,
};

verus! {

/// Whether a backend currently has its sessions attached.
#[derive(Debug, Clone, Copy, PartialEq, Eq, Structural)]
pub enum DomainState {
    Detached,
    Attached,
}

/// Where the session installed by a split comes from: a freshly spawned
/// command, or an existing session moved out of its current container.
pub enum SplitSource {
    Spawn { command: Option<CommandBuilder>, command_dir: Option<String> },
    MovePane(PaneId),
}

/// The outcome of running a command-rewrite script callback.
pub enum CommandScriptResult {
    /// The callback returned a record that decoded cleanly.
    Returned(SpawnRecord),
    /// The callback could not be invoked or its result did not decode.
    Failed,
}

/// The outcome of running a label script callback.
pub enum LabelScriptResult {
    Returned(String),
    Failed,
}

/// Handles produced by a successful pseudo-terminal allocation: opaque
/// tokens for the master side and the spawned child process.
pub struct PtyHandles {
    pub master: usize,
    pub child: usize,
}

/// Outcomes of the external collaborators, gathered by the surrounding
/// program: the script engine's responses (absent when the engine is
/// unavailable), whether the builder's working directory was readable,
/// the pseudo-terminal allocation (absent when it failed), and the
/// platform shell used when a command line renders empty.
pub struct HostPort {
    pub command_response: Option<CommandScriptResult>,
    pub label_response: Option<LabelScriptResult>,
    pub cwd_readable: bool,
    pub pty: Option<PtyHandles>,
    pub shell: String,
}

impl HostPort {
    /// A decoded command-rewrite response came from a map of
    /// environment variables, so its names are pairwise distinct.
    pub open spec fn response_wf(&self) -> bool {
        match self.command_response {
            Some(CommandScriptResult::Returned(rec)) => env_wf(rec.env@),
            _ => true,
        }
    }
}

/// The character for one decimal digit.
pub open spec fn digit_char(d: nat) -> char {
    if d == 0 {
        '0'
    } else if d == 1 {
        '1'
    } else if d == 2 {
        '2'
    } else if d == 3 {
        '3'
    } else if d == 4 {
        '4'
    } else if d == 5 {
        '5'
    } else if d == 6 {
        '6'
    } else if d == 7 {
        '7'
    } else if d == 8 {
        '8'
    } else {
        '9'
    }
}

/// The decimal rendering of `n`, most significant digit first.
pub open spec fn decimal_of(n: nat) -> Seq<char>
    decreases n,
{
    if n < 10 {
        seq![digit_char(n)]
    } else {
        decimal_of(n / 10).push(digit_char(n % 10))
    }
}

/// Relies on `alloc::string::ToString::to_string` for `usize`, whose
/// documentation gives the decimal rendering of the value.
#[verifier::external_body]
pub fn usize_to_decimal(n: usize) -> (r: String)
    ensures
        r@ == decimal_of(n as nat),
{
    n.to_string()
}

/// The arguments a personality rewrite forwards: the original argv, or
/// the personality's declared default program when the argv is empty.
pub open spec fn wsl_effective_args(argv: Seq<Option<Seq<char>>>, wsl: WslView) -> Seq<
    Option<Seq<char>>,
> {
    if argv.len() == 0 {
        match wsl.default_prog {
            Some(p) => p.map_values(|s: Seq<char>| Some(s)),
            None => Seq::empty(),
        }
    } else {
        argv
    }
}

/// The full argv of a personality launcher invocation: the fixed
/// launcher prefix naming the distribution, `--cd` with the working
/// directory if one is set, `--user` with the declared user if any,
/// and `--exec` followed by the forwarded arguments if there are any.
pub open spec fn wsl_wrapped_argv(
    argv: Seq<Option<Seq<char>>>,
    cwd: Option<Seq<char>>,
    wsl: WslView,
) -> Seq<Option<Seq<char>>> {
    let dist = match wsl.distribution {
        Some(d) => d,
        None => wsl.name,
    };
    let base = seq![Some("wsl.exe"@), Some("--distribution"@), Some(dist)];
    let with_cd = match cwd {
        Some(c) => base + seq![Some("--cd"@), Some(c)],
        None => base,
    };
    let with_user = match wsl.username {
        Some(u) => with_cd + seq![Some("--user"@), Some(u)],
        None => with_cd,
    };
    let args = wsl_effective_args(argv, wsl);
    if args.len() > 0 {
        with_user + seq![Some("--exec"@)] + args
    } else {
        with_user
    }
}

/// The argv a command-rewrite response prescribes: its arguments as
/// text, or an empty argv when it prescribes none.
pub open spec fn record_args_view(rec: SpawnRecord) -> Seq<Option<Seq<char>>> {
    match rec.args {
        Some(v) => v.deep_view().map_values(|s: Seq<char>| Some(s)),
        None => Seq::empty(),
    }
}

/// A local backend: sessions run on this machine, on a pseudo-terminal
/// allocated from the platform subsystem.
pub struct LocalDomain {
    pub id: DomainId,
    pub name: String,
    /// Whether the pseudo-terminal subsystem is the OS-native
    /// console-hosting variant, whose emulator needs quirk mode.
    pub conpty: bool,
}

impl LocalDomain {
    /// A local backend on the platform's native pseudo-terminal system.
    pub fn new(name: &str, ids: &mut IdAllocator) -> (r: Result<LocalDomain, DomainError>)
        requires
            old(ids).next < usize::MAX,
        ensures
            final(ids).next == old(ids).next + 1,
            match r {
                Ok(d) => d.id == old(ids).next && d.name@ == name@ && !d.conpty,
                Err(_) => false,
            },
    {
        Ok(Self::with_pty_system(name, false, ids))
    }

    /// A local backend on an explicitly chosen pseudo-terminal system,
    /// given as the one property of it this core reads: whether it is
    /// the console-hosting variant.
    pub fn with_pty_system(name: &str, conpty: bool, ids: &mut IdAllocator) -> (d: LocalDomain)
        requires
            old(ids).next < usize::MAX,
        ensures
            final(ids).next == old(ids).next + 1,
            d.id == old(ids).next,
            d.name@ == name@,
            d.conpty == conpty,
    {
        let id = alloc_domain_id(ids);
        LocalDomain { id, name: String::from_str(name), conpty }
    }

    /// A local backend serving a declared personality.
    pub fn new_wsl(wsl: WslDomain, ids: &mut IdAllocator) -> (r: Result<LocalDomain, DomainError>)
        requires
            old(ids).next < usize::MAX,
        ensures
            final(ids).next == old(ids).next + 1,
            match r {
                Ok(d) => d.id == old(ids).next && d.name@ == wsl.name@ && !d.conpty,
                Err(_) => false,
            },
    {
        Self::new(wsl.name.as_str(), ids)
    }

    /// A local backend serving a declared script hook.
    pub fn new_exec_domain(exec_domain: ExecDomain, ids: &mut IdAllocator) -> (r: Result<
        LocalDomain,
        DomainError,
    >)
        requires
            old(ids).next < usize::MAX,
        ensures
            final(ids).next == old(ids).next + 1,
            match r {
                Ok(d) => d.id == old(ids).next && d.name@ == exec_domain.name@ && !d.conpty,
                Err(_) => false,
            },
    {
        Self::new(exec_domain.name.as_str(), ids)
    }

    /// Whether the backing pseudo-terminal system is the OS-native
    /// console-hosting variant.
    pub fn is_conpty(&self) -> (r: bool)
        ensures
            r == self.conpty,
    {
        self.conpty
    }

    /// The personality declaration matching this backend's name.
    pub fn resolve_wsl_domain(&self, config: &ConfigSnapshot) -> (r: Option<WslDomain>)
        requires
            config.wf(),
        ensures
            r is Some <==> has_wsl(config.wsl_domains@, self.name@),
            match r {
                Some(w) => w@ == config.wsl_domains@[wsl_index(config.wsl_domains@, self.name@)]@,
                None => true,
            },
    {
        let n = config.wsl_domains.len();
        let mut i: usize = 0;
        while i < n
            invariant
                n == config.wsl_domains.len(),
                i <= n,
                config.wf(),
                forall|j: int| 0 <= j < i ==> config.wsl_domains@[j].name@ != self.name@,
            decreases n - i,
        {
            if config.wsl_domains[i].name == self.name {
                proof {
                    let decls = config.wsl_domains@;
                    assert(decls[i as int].name@ == self.name@);
                    assert(has_wsl(decls, self.name@));
                    let w2 = wsl_index(decls, self.name@);
                    assert(0 <= w2 < decls.len() && decls[w2].name@ == self.name@);
                    assert(w2 == i as int);
                }
                return Some(clone_wsl_domain(&config.wsl_domains[i]));
            }
            i = i + 1;
        }
        proof {
            assert(!has_wsl(config.wsl_domains@, self.name@));
        }
        None
    }

    /// The script-hook declaration matching this backend's name.
    pub fn resolve_exec_domain(&self, config: &ConfigSnapshot) -> (r: Option<ExecDomain>)
        requires
            config.wf(),
        ensures
            r is Some <==> has_exec(config.exec_domains@, self.name@),
            match r {
                Some(e) => e@ == config.exec_domains@[exec_index(
                    config.exec_domains@,
                    self.name@,
                )]@,
                None => true,
            },
    {
        let n = config.exec_domains.len();
        let mut i: usize = 0;
        while i < n
            invariant
                n == config.exec_domains.len(),
                i <= n,
                config.wf(),
                forall|j: int| 0 <= j < i ==> config.exec_domains@[j].name@ != self.name@,
            decreases n - i,
        {
            if config.exec_domains[i].name == self.name {
                proof {
                    let decls = config.exec_domains@;
                    assert(decls[i as int].name@ == self.name@);
                    assert(has_exec(decls, self.name@));
                    let w2 = exec_index(decls, self.name@);
                    assert(0 <= w2 < decls.len() && decls[w2].name@ == self.name@);
                    assert(w2 == i as int);
                }
                return Some(clone_exec_domain(&config.exec_domains[i]));
            }
            i = i + 1;
        }
        proof {
            assert(!has_exec(config.exec_domains@, self.name@));
        }
        None
    }

    /// Applies the one fixup strategy selected by declaration lookup:
    /// the personality rewrite, the script-hook round trip, or the
    /// plain working-directory check (whose outcome the host supplies).
    /// On any failure the builder is left exactly as it was.
    pub fn fixup_command(&self, cmd: &mut CommandBuilder, config: &ConfigSnapshot, host: &HostPort)
        -> (r: Result<(), DomainError>)
        requires
            config.wf(),
            old(cmd).wf(),
            host.response_wf(),
        ensures
            final(cmd).wf(),
            has_wsl(config.wsl_domains@, self.name@) ==> {
                let wsl = config.wsl_domains@[wsl_index(config.wsl_domains@, self.name@)]@;
                &&& r is Ok
                &&& argv_view(final(cmd).argv@) == wsl_wrapped_argv(
                    argv_view(old(cmd).argv@),
                    opt_str_view(old(cmd).cwd),
                    wsl,
                )
                &&& final(cmd).cwd is None
                &&& final(cmd).env@ == old(cmd).env@
            },
            !has_wsl(config.wsl_domains@, self.name@) && has_exec(
                config.exec_domains@,
                self.name@,
            ) ==> {
                let ed = config.exec_domains@[exec_index(config.exec_domains@, self.name@)]@;
                if !all_text(argv_view(old(cmd).argv@)) {
                    r == Err::<(), DomainError>(DomainError::EncodingError) && *final(cmd) == *old(
                        cmd,
                    )
                } else {
                    match host.command_response {
                        Some(CommandScriptResult::Returned(rec)) => {
                            &&& r is Ok
                            &&& argv_view(final(cmd).argv@) == record_args_view(rec)
                            &&& final(cmd).env@ == rec.env@
                            &&& final(cmd).cwd == rec.cwd
                        },
                        _ => (match r {
                            Err(DomainError::ScriptCallbackError(n)) => n@ == ed.name,
                            _ => false,
                        }) && *final(cmd) == *old(cmd),
                    }
                }
            },
            !has_wsl(config.wsl_domains@, self.name@) && !has_exec(
                config.exec_domains@,
                self.name@,
            ) ==> {
                &&& r is Ok
                &&& final(cmd).argv@ == old(cmd).argv@
                &&& final(cmd).env@ == old(cmd).env@
                &&& final(cmd).cwd == (if old(cmd).cwd is Some && !host.cwd_readable {
                    None
                } else {
                    old(cmd).cwd
                })
            },
    {
        let wsl = self.resolve_wsl_domain(config);
        match wsl {
            Some(w) => {
                fixup_wsl(cmd, &w);
                return Ok(());
            },
            None => {},
        }
        let ed = self.resolve_exec_domain(config);
        match ed {
            Some(e) => {
                let request = prepare_exec_request(cmd, &e);
                match request {
                    Err(err) => Err(err),
                    Ok(_request) => {
                        match &host.command_response {
                            Some(CommandScriptResult::Returned(rec)) => {
                                apply_spawn_record(cmd, rec);
                                Ok(())
                            },
                            _ => Err(DomainError::ScriptCallbackError(e.name.clone())),
                        }
                    },
                }
            },
            None => {
                match &cmd.cwd {
                    Some(_) => {
                        if !host.cwd_readable {
                            cmd.clear_cwd();
                        }
                        Ok(())
                    },
                    None => Ok(()),
                }
            },
        }
    }
}

/// Rewrites the whole argv into a personality launcher invocation and
/// clears the builder's native working directory: the launcher takes
/// the directory through its own flag instead.
pub fn fixup_wsl(cmd: &mut CommandBuilder, wsl: &WslDomain)
    requires
        old(cmd).wf(),
    ensures
        final(cmd).wf(),
        argv_view(final(cmd).argv@) == wsl_wrapped_argv(
            argv_view(old(cmd).argv@),
            opt_str_view(old(cmd).cwd),
            wsl@,
        ),
        final(cmd).cwd is None,
        final(cmd).env@ == old(cmd).env@,
{
    let mut args: Vec<Arg> = Vec::new();
    if cmd.argv.len() == 0 {
        match &wsl.default_prog {
            Some(p) => {
                let n = p.len();
                let mut i: usize = 0;
                while i < n
                    invariant
                        n == p.len(),
                        i <= n,
                        args@.len() == i,
                        forall|j: int| 0 <= j < i ==> args@[j] == Arg::Text(p@[j]),
                    decreases n - i,
                {
                    args.push(Arg::Text(p[i].clone()));
                    i = i + 1;
                }
                proof {
                    assert(argv_view(args@) =~= wsl_effective_args(
                        argv_view(old(cmd).argv@),
                        wsl@,
                    ));
                }
            },
            None => {
                proof {
                    assert(argv_view(args@) =~= wsl_effective_args(
                        argv_view(old(cmd).argv@),
                        wsl@,
                    ));
                }
            },
        }
    } else {
        args = crate::command::clone_vec_arg(&cmd.argv);
        proof {
            assert(argv_view(old(cmd).argv@).len() > 0);
            assert(argv_view(args@) =~= wsl_effective_args(argv_view(old(cmd).argv@), wsl@));
        }
    }
    let mut argv: Vec<Arg> = Vec::new();
    argv.push(Arg::Text(String::from_str("wsl.exe")));
    argv.push(Arg::Text(String::from_str("--distribution")));
    match &wsl.distribution {
        Some(d) => argv.push(Arg::Text(d.clone())),
        None => argv.push(Arg::Text(wsl.name.clone())),
    }
    match &cmd.cwd {
        Some(c) => {
            argv.push(Arg::Text(String::from_str("--cd")));
            argv.push(Arg::Text(c.clone()));
        },
        None => {},
    }
    match &wsl.username {
        Some(u) => {
            argv.push(Arg::Text(String::from_str("--user")));
            argv.push(Arg::Text(u.clone()));
        },
        None => {},
    }
    if args.len() > 0 {
        argv.push(Arg::Text(String::from_str("--exec")));
        let ghost snap = argv@;
        let n = args.len();
        let mut i: usize = 0;
        while i < n
            invariant
                n == args.len(),
                i <= n,
                argv@ == snap + args@.subrange(0, i as int),
            decreases n - i,
        {
            argv.push(clone_arg(&args[i]));
            proof {
                assert(args@.subrange(0, i + 1 as int) == args@.subrange(0, i as int).push(
                    args@[i as int],
                ));
            }
            i = i + 1;
        }
        proof {
            assert(args@.subrange(0, n as int) == args@);
        }
    }
    cmd.clear_cwd();
    cmd.argv = argv;
    proof {
        assert(argv_view(final(cmd).argv@) =~= wsl_wrapped_argv(
            argv_view(old(cmd).argv@),
            opt_str_view(old(cmd).cwd),
            wsl@,
        ));
    }
}

/// Serializes the builder into a portable command-request record for a
/// script callback, failing when an argument is not representable as
/// text.  The builder itself is not changed.
pub fn prepare_exec_request(cmd: &CommandBuilder, ed: &ExecDomain) -> (r: Result<
    SpawnRecord,
    DomainError,
>)
    ensures
        r is Ok <==> all_text(argv_view(cmd.argv@)),
        match r {
            Ok(rec) => {
                &&& rec.label is None
                &&& rec.domain_name@ == ed.name@
                &&& record_args_view(rec) == argv_view(cmd.argv@)
                &&& (rec.args is Some <==> cmd.argv@.len() > 0)
                &&& rec.env@ == cmd.env@
                &&& rec.cwd == cmd.cwd
            },
            Err(e) => e == DomainError::EncodingError,
        },
{
    let mut args: Vec<String> = Vec::new();
    let n = cmd.argv.len();
    let mut i: usize = 0;
    while i < n
        invariant
            n == cmd.argv.len(),
            i <= n,
            args@.len() == i,
            forall|j: int| 0 <= j < i ==> Some(args@[j]@) == arg_view(cmd.argv@[j]),
        decreases n - i,
    {
        match &cmd.argv[i] {
            Arg::Text(s) => {
                args.push(s.clone());
                proof {
                    assert(Some(args@[i as int]@) == arg_view(cmd.argv@[i as int]));
                }
            },
            Arg::Opaque => {
                proof {
                    assert(arg_view(cmd.argv@[i as int]) is None);
                    assert(argv_view(cmd.argv@)[i as int] == arg_view(cmd.argv@[i as int]));
                    assert(!all_text(argv_view(cmd.argv@)));
                }
                return Err(DomainError::EncodingError);
            },
        }
        i = i + 1;
    }
    let rec = SpawnRecord {
        label: None,
        domain_name: ed.name.clone(),
        args: if args.len() == 0 {
            None
        } else {
            Some(args)
        },
        env: clone_env_list(&cmd.env),
        cwd: clone_opt_string(&cmd.cwd),
    };
    proof {
        assert(all_text(argv_view(cmd.argv@)));
        assert(record_args_view(rec) =~= argv_view(cmd.argv@));
    }
    Ok(rec)
}

/// The declared program rendered as an argv of text arguments: empty
/// when none is declared.
pub open spec fn prog_view_args(p: Option<Seq<Seq<char>>>) -> Seq<Option<Seq<char>>> {
    match p {
        Some(v) => v.map_values(|s: Seq<char>| Some(s)),
        None => Seq::empty(),
    }
}

/// The mathematical value of an optional program list.
pub open spec fn opt_prog_view(p: Option<Vec<String>>) -> Option<Seq<Seq<char>>> {
    match p {
        Some(v) => Some(v.deep_view()),
        None => None,
    }
}

/// The argv the pipeline holds when the fixup step begins: the explicit
/// command's argv, or the one synthesized from the backend's declared
/// default program (a matching personality declaration's defaults take
/// priority over the global ones, wholesale).
pub open spec fn prepared_argv(
    command: Option<CommandBuilder>,
    config: ConfigSnapshot,
    name: Seq<char>,
) -> Seq<Option<Seq<char>>> {
    match command {
        Some(c) => argv_view(c.argv@),
        None => if has_wsl(config.wsl_domains@, name) {
            prog_view_args(config.wsl_domains@[wsl_index(config.wsl_domains@, name)]@.default_prog)
        } else {
            prog_view_args(opt_prog_view(config.default_prog))
        },
    }
}

/// The working directory the pipeline holds when the fixup step begins:
/// an explicit directory override wins unconditionally; otherwise the
/// explicit command's directory, filled from the defaults when missing.
pub open spec fn prepared_cwd(
    command: Option<CommandBuilder>,
    command_dir: Option<String>,
    config: ConfigSnapshot,
    name: Seq<char>,
) -> Option<Seq<char>> {
    match command_dir {
        Some(d) => Some(d@),
        None => match command {
            Some(c) => if c.cwd is Some {
                opt_str_view(c.cwd)
            } else {
                opt_str_view(config.default_cwd)
            },
            None => if has_wsl(config.wsl_domains@, name) {
                config.wsl_domains@[wsl_index(config.wsl_domains@, name)]@.default_cwd
            } else {
                opt_str_view(config.default_cwd)
            },
        },
    }
}

/// Whether the whole pipeline succeeds: only the script-hook strategy
/// can fail, on an argv that is not all text or on a callback that did
/// not return a decodable record.
pub open spec fn pipeline_ok(
    command: Option<CommandBuilder>,
    config: ConfigSnapshot,
    name: Seq<char>,
    host: HostPort,
) -> bool {
    has_wsl(config.wsl_domains@, name) || !has_exec(config.exec_domains@, name) || (all_text(
        prepared_argv(command, config, name),
    ) && (host.command_response matches Some(CommandScriptResult::Returned(_))))
}

/// The argv the pipeline produces when it succeeds.
pub open spec fn pipeline_argv(
    command: Option<CommandBuilder>,
    command_dir: Option<String>,
    config: ConfigSnapshot,
    name: Seq<char>,
    host: HostPort,
) -> Seq<Option<Seq<char>>> {
    if has_wsl(config.wsl_domains@, name) {
        wsl_wrapped_argv(
            prepared_argv(command, config, name),
            prepared_cwd(command, command_dir, config, name),
            config.wsl_domains@[wsl_index(config.wsl_domains@, name)]@,
        )
    } else if has_exec(config.exec_domains@, name) {
        match host.command_response {
            Some(CommandScriptResult::Returned(rec)) => record_args_view(rec),
            _ => Seq::empty(),
        }
    } else {
        prepared_argv(command, config, name)
    }
}

/// The working directory the pipeline produces when it succeeds.
pub open spec fn pipeline_cwd(
    command: Option<CommandBuilder>,
    command_dir: Option<String>,
    config: ConfigSnapshot,
    name: Seq<char>,
    host: HostPort,
) -> Option<Seq<char>> {
    if has_wsl(config.wsl_domains@, name) {
        None
    } else if has_exec(config.exec_domains@, name) {
        match host.command_response {
            Some(CommandScriptResult::Returned(rec)) => opt_str_view(rec.cwd),
            _ => None,
        }
    } else {
        let p = prepared_cwd(command, command_dir, config, name);
        if p is Some && !host.cwd_readable {
            None
        } else {
            p
        }
    }
}

impl LocalDomain {
    /// Runs the whole command-construction pipeline: backend-independent
    /// defaulting, the explicit directory override, injection of the
    /// session-identifying environment variable, and the one fixup
    /// strategy selected by declaration lookup.
    pub fn build_command(
        &self,
        config: &ConfigSnapshot,
        host: &HostPort,
        command: Option<CommandBuilder>,
        command_dir: Option<String>,
        pane_id: PaneId,
    ) -> (r: Result<CommandBuilder, DomainError>)
        requires
            config.wf(),
            host.response_wf(),
            match command {
                Some(c) => c.wf(),
                None => true,
            },
        ensures
            r is Ok <==> pipeline_ok(command, *config, self.name@, *host),
            match r {
                Ok(c) => {
                    &&& c.wf()
                    &&& argv_view(c.argv@) == pipeline_argv(
                        command,
                        command_dir,
                        *config,
                        self.name@,
                        *host,
                    )
                    &&& opt_str_view(c.cwd) == pipeline_cwd(
                        command,
                        command_dir,
                        *config,
                        self.name@,
                        *host,
                    )
                    &&& (!has_wsl(config.wsl_domains@, self.name@) && has_exec(
                        config.exec_domains@,
                        self.name@,
                    ) ==> (match host.command_response {
                        Some(CommandScriptResult::Returned(rec)) => c.env@ == rec.env@,
                        _ => false,
                    }))
                    &&& (has_wsl(config.wsl_domains@, self.name@) || !has_exec(
                        config.exec_domains@,
                        self.name@,
                    ) ==> {
                        let env0 = match command {
                            Some(c0) => c0.env@,
                            None => Seq::<crate::command::EnvVar>::empty(),
                        };
                        &&& env_maps_to(
                            c.env@,
                            "WEZTERM_PANE"@,
                            decimal_of(pane_id as nat),
                        )
                        &&& forall|k: Seq<char>, v: Seq<char>|
                            k != "WEZTERM_PANE"@ ==> (env_maps_to(c.env@, k, v) <==> env_maps_to(
                                env0,
                                k,
                                v,
                            ))
                    })
                },
                Err(e) => {
                    &&& !has_wsl(config.wsl_domains@, self.name@)
                    &&& has_exec(config.exec_domains@, self.name@)
                    &&& if !all_text(prepared_argv(command, *config, self.name@)) {
                        e == DomainError::EncodingError
                    } else {
                        match e {
                            DomainError::ScriptCallbackError(n) => n@ == config.exec_domains@[
                                exec_index(config.exec_domains@, self.name@)
                            ]@.name,
                            _ => false,
                        }
                    }
                },
            },
    {
        let ghost command0 = command;
        let mut cmd = match command {
            Some(mut c) => {
                config.apply_cmd_defaults(&mut c);
                c
            },
            None => {
                let wsl = self.resolve_wsl_domain(config);
                let c = match &wsl {
                    Some(w) => config.build_prog(w.default_prog.as_ref(), w.default_cwd.as_ref()),
                    None => config.build_prog(
                        config.default_prog.as_ref(),
                        config.default_cwd.as_ref(),
                    ),
                };
                proof {
                    assert(argv_view(c.argv@) =~= prepared_argv(command0, *config, self.name@));
                }
                c
            },
        };
        match command_dir {
            Some(d) => cmd.set_cwd(d),
            None => {},
        }
        proof {
            assert(argv_view(cmd.argv@) == prepared_argv(command0, *config, self.name@));
            assert(opt_str_view(cmd.cwd) == prepared_cwd(
                command0,
                command_dir,
                *config,
                self.name@,
            ));
        }
        let key = String::from_str("WEZTERM_PANE");
        let value = usize_to_decimal(pane_id);
        cmd.env(&key, &value);
        match self.fixup_command(&mut cmd, config, host) {
            Ok(()) => Ok(cmd),
            Err(e) => Err(e),
        }
    }
}

/// Replaces the builder's argv, environment and working directory
/// wholesale with the values a script callback returned: nothing of the
/// previous contents survives.
pub fn apply_spawn_record(cmd: &mut CommandBuilder, rec: &SpawnRecord)
    requires
        env_wf(rec.env@),
    ensures
        final(cmd).wf(),
        argv_view(final(cmd).argv@) == record_args_view(*rec),
        final(cmd).env@ == rec.env@,
        final(cmd).cwd == rec.cwd,
{
    let mut argv: Vec<Arg> = Vec::new();
    match &rec.args {
        Some(v) => {
            let n = v.len();
            let mut i: usize = 0;
            while i < n
                invariant
                    n == v.len(),
                    i <= n,
                    argv@.len() == i,
                    forall|j: int| 0 <= j < i ==> argv@[j] == Arg::Text(v@[j]),
                decreases n - i,
            {
                argv.push(Arg::Text(v[i].clone()));
                i = i + 1;
            }
        },
        None => {},
    }
    cmd.argv = argv;
    cmd.env = clone_env_list(&rec.env);
    cmd.cwd = clone_opt_string(&rec.cwd);
    proof {
        assert(argv_view(final(cmd).argv@) =~= record_args_view(*rec));
    }
}

/// A polymorphic execution backend.  The backend supplies one
/// primitive, [`Domain::spawn_pane`]; the cross-backend algorithms
/// [`spawn`] and [`split_pane`] are built on it.
pub trait Domain: Sized {
    /// The identifier assigned to the backend at construction.
    spec fn id_view(&self) -> DomainId;

    /// The backend's name, as a sequence of characters.
    spec fn name_view(&self) -> Seq<char>;

    /// The backend's process-wide identifier.
    fn domain_id(&self) -> (r: DomainId)
        ensures
            r == self.id_view(),
    ;

    /// The backend's short stable name, used for declaration lookup.
    fn domain_name(&self) -> (r: &str)
        ensures
            r@ == self.name_view(),
    ;

    /// Whether [`spawn`] can ever succeed on this backend.
    fn spawnable(&self) -> bool;

    /// The backend's attachment state.
    fn state(&self) -> DomainState;

    /// Re-attaches any pre-existing sessions of this backend.
    fn attach(&self, window_id: Option<WindowId>) -> Result<(), DomainError>;

    /// Detaches all sessions; a backend that never supports detaching
    /// fails with an explicit error rather than silently succeeding.
    fn detach(&self) -> Result<(), DomainError>;

    /// Advises the backend that a local window is closing, giving it
    /// the chance to detach its sessions rather than kill them.
    fn local_window_is_closing(&self, window_id: WindowId);

    /// A label describing the backend.  By default the name; a backend
    /// may compute a richer label from declarations and script
    /// outcomes.
    fn domain_label(&self, config: &ConfigSnapshot, host: &HostPort) -> (r: String)
        requires
            config.wf(),
    {
        String::from_str(self.domain_name())
    }

    /// Allocates whatever resources the backend needs and registers one
    /// new runnable session, in no container.  On failure nothing is
    /// registered.
    fn spawn_pane(
        &self,
        reg: &mut Registry,
        ids: &mut IdAllocator,
        config: &ConfigSnapshot,
        host: &HostPort,
        size: TermSize,
        command: Option<CommandBuilder>,
        command_dir: Option<String>,
    ) -> (r: Result<PaneId, DomainError>)
        requires
            old(reg).wf(),
            config.wf(),
            host.response_wf(),
            match command {
                Some(c) => c.wf(),
                None => true,
            },
            old(reg).ids_below(old(ids).next as int),
            old(ids).next < usize::MAX,
        ensures
            final(reg).wf(),
            final(reg).ids_below(final(ids).next as int),
            old(ids).next <= final(ids).next <= old(ids).next + 1,
            final(reg).tabs@ == old(reg).tabs@,
            final(reg).windows@ == old(reg).windows@,
            match r {
                Ok(p) => {
                    &&& old(ids).next <= p < final(ids).next
                    &&& !has_pane_entry(old(reg).panes@, p)
                    &&& final(reg).panes@.len() == old(reg).panes@.len() + 1
                    &&& (forall|j: int|
                        0 <= j < old(reg).panes@.len() ==> final(reg).panes@[j] == old(
                            reg,
                        ).panes@[j])
                    &&& final(reg).panes@.last().pane_id == p
                    &&& final(reg).panes@.last().size == size
                },
                Err(e) => final(reg).panes@ == old(reg).panes@ && (e is EncodingError
                    || e is ScriptCallbackError || e is ResourceError),
            },
    ;
}

/// The space-joined command line of an all-text argv.
pub open spec fn joined_args(s: Seq<Option<Seq<char>>>) -> Seq<char>
    decreases s.len(),
{
    if s.len() == 0 {
        Seq::empty()
    } else if s.len() == 1 {
        match s[0] {
            Some(a) => a,
            None => Seq::empty(),
        }
    } else {
        joined_args(s.drop_last()) + seq![' '] + (match s.last() {
            Some(a) => a,
            None => Seq::empty(),
        })
    }
}

/// The rendered command line, or the fixed placeholder when some
/// argument is not representable as text.
pub open spec fn rendered_or_fallback(s: Seq<Option<Seq<char>>>) -> Seq<char> {
    if all_text(s) {
        joined_args(s)
    } else {
        "error rendering command line"@
    }
}

/// The human-readable description of a launched session: the command
/// line (or, when it is empty, the resolved shell) tagged with the
/// backend name.
pub open spec fn description_of(line: Seq<char>, shell: Seq<char>, name: Seq<char>) -> Seq<char> {
    let body = if line.len() == 0 {
        shell
    } else {
        line
    };
    "\""@ + body + "\" in domain \""@ + name + "\""@
}

/// Renders an argv as a space-joined command line, failing when an
/// argument is not representable as text.
pub fn render_command_line(argv: &Vec<Arg>) -> (r: Result<String, DomainError>)
    ensures
        r is Ok <==> all_text(argv_view(argv@)),
        match r {
            Ok(s) => s@ == joined_args(argv_view(argv@)),
            Err(e) => e == DomainError::EncodingError,
        },
{
    let mut out = String::new();
    let n = argv.len();
    let mut i: usize = 0;
    while i < n
        invariant
            n == argv.len(),
            i <= n,
            all_text(argv_view(argv@.subrange(0, i as int))),
            out@ == joined_args(argv_view(argv@.subrange(0, i as int))),
        decreases n - i,
    {
        match &argv[i] {
            Arg::Opaque => {
                proof {
                    assert(arg_view(argv@[i as int]) is None);
                    assert(argv_view(argv@)[i as int] == arg_view(argv@[i as int]));
                    assert(!all_text(argv_view(argv@)));
                }
                return Err(DomainError::EncodingError);
            },
            Arg::Text(s) => {
                if i > 0 {
                    out.append(" ");
                }
                out.append(s.as_str());
                proof {
                    reveal_strlit(" ");
                    let pre = argv_view(argv@.subrange(0, i as int));
                    let cur = argv_view(argv@.subrange(0, i + 1 as int));
                    assert(argv@.subrange(0, i + 1 as int).drop_last() == argv@.subrange(
                        0,
                        i as int,
                    ));
                    assert(cur.len() == i + 1);
                    assert forall|j: int| 0 <= j < i + 1 implies cur[j] == (if j < i as int {
                        pre[j]
                    } else {
                        arg_view(argv@[i as int])
                    }) by {
                        assert(cur[j] == arg_view(argv@.subrange(0, i + 1 as int)[j]));
                    };
                    assert(cur.drop_last() =~= pre);
                    assert(cur.last() == arg_view(argv@[i as int]));
                    assert(all_text(cur));
                    if i == 0 {
                        assert(cur.len() == 1);
                        assert(out@ == s@);
                        assert(joined_args(cur) == s@);
                    } else {
                        assert(" "@ =~= seq![' ']);
                        assert(joined_args(cur) == joined_args(pre) + seq![' '] + s@);
                    }
                }
            },
        }
        i = i + 1;
    }
    proof {
        assert(argv@.subrange(0, n as int) == argv@);
    }
    Ok(out)
}

/// Builds the description of a launched session from its rendered
/// command line (falling back to the shell when it is empty) and the
/// backend name.
pub fn describe_command(line: &String, shell: &String, name: &String) -> (r: String)
    ensures
        r@ == description_of(line@, shell@, name@),
{
    let mut out = String::new();
    out.append("\"");
    if line.as_str().unicode_len() == 0 {
        out.append(shell.as_str());
        proof {
            assert(line@.len() == 0);
        }
    } else {
        out.append(line.as_str());
    }
    out.append("\" in domain \"");
    out.append(name.as_str());
    out.append("\"");
    out
}

impl LocalDomain {
    /// Fulfils the bare-spawn primitive locally: allocates a session
    /// identifier, runs the command pipeline, takes the host's
    /// pseudo-terminal allocation, derives the session description, and
    /// registers the session.  Registration happens only once every
    /// step has succeeded; on failure nothing is registered, though the
    /// allocated identifier is spent.
    pub fn spawn_local_pane(
        &self,
        reg: &mut Registry,
        ids: &mut IdAllocator,
        config: &ConfigSnapshot,
        host: &HostPort,
        size: TermSize,
        command: Option<CommandBuilder>,
        command_dir: Option<String>,
    ) -> (r: Result<PaneId, DomainError>)
        requires
            old(reg).wf(),
            config.wf(),
            host.response_wf(),
            match command {
                Some(c) => c.wf(),
                None => true,
            },
            old(reg).ids_below(old(ids).next as int),
            old(ids).next < usize::MAX,
        ensures
            final(reg).wf(),
            final(reg).ids_below(final(ids).next as int),
            final(ids).next == old(ids).next + 1,
            final(reg).tabs@ == old(reg).tabs@,
            final(reg).windows@ == old(reg).windows@,
            r is Ok <==> (pipeline_ok(command, *config, self.name@, *host) && host.pty is Some),
            match r {
                Ok(p) => {
                    &&& p == old(ids).next
                    &&& !has_pane_entry(old(reg).panes@, p)
                    &&& final(reg).panes@.len() == old(reg).panes@.len() + 1
                    &&& (forall|j: int|
                        0 <= j < old(reg).panes@.len() ==> final(reg).panes@[j] == old(
                            reg,
                        ).panes@[j])
                    &&& {
                        let e = final(reg).panes@.last();
                        &&& e.pane_id == p
                        &&& e.domain_id == self.id
                        &&& e.conpty_quirks == self.conpty
                        &&& (match host.pty {
                            Some(h) => e.process_handle == h.child && e.pty_handle == h.master,
                            None => false,
                        })
                        &&& e.size == size
                        &&& e.description@ == description_of(
                            rendered_or_fallback(
                                pipeline_argv(command, command_dir, *config, self.name@, *host),
                            ),
                            host.shell@,
                            self.name@,
                        )
                    }
                },
                Err(e) => {
                    &&& final(reg).panes@ == old(reg).panes@
                    &&& if pipeline_ok(command, *config, self.name@, *host) {
                        host.pty is None && e == DomainError::ResourceError
                    } else {
                        &&& !has_wsl(config.wsl_domains@, self.name@)
                        &&& has_exec(config.exec_domains@, self.name@)
                        &&& if !all_text(prepared_argv(command, *config, self.name@)) {
                            e == DomainError::EncodingError
                        } else {
                            match e {
                                DomainError::ScriptCallbackError(n) => n@ == config.exec_domains@[
                                    exec_index(config.exec_domains@, self.name@)
                                ]@.name,
                                _ => false,
                            }
                        }
                    }
                },
            },
    {
        let pane_id = alloc_pane_id(ids);
        let cmd = match self.build_command(config, host, command, command_dir, pane_id) {
            Ok(c) => c,
            Err(e) => {
                return Err(e);
            },
        };
        let pty = match &host.pty {
            Some(h) => PtyHandles { master: h.master, child: h.child },
            None => {
                return Err(DomainError::ResourceError);
            },
        };
        let line = match render_command_line(&cmd.argv) {
            Ok(l) => l,
            Err(_) => String::from_str("error rendering command line"),
        };
        let description = describe_command(&line, &host.shell, &self.name);
        let entry = PaneEntry {
            pane_id,
            domain_id: self.id,
            process_handle: pty.child,
            pty_handle: pty.master,
            size,
            conpty_quirks: self.is_conpty(),
            description,
        };
        let added = reg.add_pane(entry);
        proof {
            if has_pane_entry(old(reg).panes@, pane_id) {
                let w = choose|w: int|
                    0 <= w < old(reg).panes@.len() && old(reg).panes@[w].pane_id == pane_id;
                assert(old(reg).panes@[w].pane_id < old(ids).next);
            }
            assert(added);
            assert(old(reg).ids_below(final(ids).next as int));
        }
        Ok(pane_id)
    }
}

/// The label a local backend reports: a script-hook declaration's
/// fixed or computed label (falling back to the name when the callback
/// fails), a personality declaration's distribution, or the name.
pub open spec fn domain_label_view(config: ConfigSnapshot, name: Seq<char>, host: HostPort) -> Seq<
    char,
> {
    if has_exec(config.exec_domains@, name) {
        let ed = config.exec_domains@[exec_index(config.exec_domains@, name)]@;
        match ed.label {
            Some(LabelView::Value(s)) => s,
            Some(LabelView::Func) => match host.label_response {
                Some(LabelScriptResult::Returned(l)) => l@,
                _ => name,
            },
            None => name,
        }
    } else if has_wsl(config.wsl_domains@, name) {
        let w = config.wsl_domains@[wsl_index(config.wsl_domains@, name)]@;
        match w.distribution {
            Some(d) => d,
            None => name,
        }
    } else {
        name
    }
}

impl Domain for LocalDomain {
    open spec fn id_view(&self) -> DomainId {
        self.id
    }

    open spec fn name_view(&self) -> Seq<char> {
        self.name@
    }

    fn domain_id(&self) -> (r: DomainId) {
        self.id
    }

    fn domain_name(&self) -> (r: &str) {
        self.name.as_str()
    }

    /// A local backend can always spawn.
    fn spawnable(&self) -> (r: bool)
        ensures
            r,
    {
        true
    }

    /// A local backend is always attached and exposes no transition.
    fn state(&self) -> (r: DomainState)
        ensures
            r == DomainState::Attached,
    {
        DomainState::Attached
    }

    /// A local backend has no pre-existing sessions to re-attach, so
    /// attaching always succeeds and changes nothing.
    fn attach(&self, _window_id: Option<WindowId>) -> (r: Result<(), DomainError>)
        ensures
            r is Ok,
    {
        Ok(())
    }

    /// A local backend never supports detaching: the call fails with
    /// the explicit unsupported-operation error, never silently.
    fn detach(&self) -> (r: Result<(), DomainError>)
        ensures
            r == Err::<(), DomainError>(DomainError::UnsupportedOperation),
    {
        Err(DomainError::UnsupportedOperation)
    }

    fn local_window_is_closing(&self, _window_id: WindowId) {
    }

    /// A label describing the backend: a script-hook declaration's
    /// fixed or computed label (falling back to the name when the
    /// callback fails), a personality declaration's distribution, or
    /// the name.
    fn domain_label(&self, config: &ConfigSnapshot, host: &HostPort) -> (r: String)
        ensures
            r@ == domain_label_view(*config, self.name@, *host),
    {
        let ed = self.resolve_exec_domain(config);
        match ed {
            Some(e) => {
                match &e.label {
                    Some(LabelSpec::Value(s)) => s.clone(),
                    Some(LabelSpec::Func) => {
                        match &host.label_response {
                            Some(LabelScriptResult::Returned(l)) => l.clone(),
                            _ => self.name.clone(),
                        }
                    },
                    None => self.name.clone(),
                }
            },
            None => {
                let wsl = self.resolve_wsl_domain(config);
                match wsl {
                    Some(w) => {
                        match w.distribution {
                            Some(d) => d,
                            None => self.name.clone(),
                        }
                    },
                    None => self.name.clone(),
                }
            },
        }
    }

    fn spawn_pane(
        &self,
        reg: &mut Registry,
        ids: &mut IdAllocator,
        config: &ConfigSnapshot,
        host: &HostPort,
        size: TermSize,
        command: Option<CommandBuilder>,
        command_dir: Option<String>,
    ) -> (r: Result<PaneId, DomainError>) {
        self.spawn_local_pane(reg, ids, config, host, size, command, command_dir)
    }
}

/// Spawns a first session into a new container: invokes the backend's
/// bare-spawn primitive, creates a container holding the one session,
/// registers it, and lists it in the window as its active container.
/// A registration failure after the session was created is surfaced
/// unchanged, with no rollback: the session stays registered.
pub fn spawn<D: Domain>(
    domain: &D,
    reg: &mut Registry,
    ids: &mut IdAllocator,
    config: &ConfigSnapshot,
    host: &HostPort,
    size: TermSize,
    command: Option<CommandBuilder>,
    command_dir: Option<String>,
    window: WindowId,
) -> (r: Result<TabId, DomainError>)
    requires
        old(reg).wf(),
        config.wf(),
        host.response_wf(),
        match command {
            Some(c) => c.wf(),
            None => true,
        },
        old(reg).ids_below(old(ids).next as int),
        old(ids).next < usize::MAX - 1,
    ensures
        final(reg).wf(),
        final(reg).ids_below(final(ids).next as int),
        match r {
            Ok(t) => {
                &&& crate::registry::has_window(old(reg).windows@, window)
                &&& has_tab(final(reg).tabs@, t)
                &&& final(reg).tabs@.len() == old(reg).tabs@.len() + 1
                &&& (forall|j: int|
                    0 <= j < old(reg).tabs@.len() ==> final(reg).tabs@[j] == old(reg).tabs@[j])
                &&& final(reg).tabs@.last().tab_id == t
                &&& final(reg).tabs@.last().size == size
                &&& final(reg).tabs@.last().panes@.len() == 1
                &&& final(reg).panes@.len() == old(reg).panes@.len() + 1
                &&& final(reg).tabs@.last().panes@[0] == final(reg).panes@.last().pane_id
                &&& final(reg).panes@.last().size == size
                &&& crate::registry::tab_in_some_window(final(reg).windows@, t)
            },
            Err(e) => {
                ||| {
                    // the bare spawn failed: its error is surfaced
                    // unchanged (a pipeline or resource kind, never a
                    // registration kind) and nothing was registered
                    &&& final(reg).panes@ == old(reg).panes@
                    &&& final(reg).tabs@ == old(reg).tabs@
                    &&& final(reg).windows@ == old(reg).windows@
                    &&& (e is EncodingError || e is ScriptCallbackError || e is ResourceError)
                }
                ||| {
                    // window registration failed after the session was
                    // created: surfaced unchanged, no rollback — the
                    // session and its container stay registered,
                    // orphaned from any window
                    &&& e == DomainError::NotFound(window)
                    &&& !crate::registry::has_window(old(reg).windows@, window)
                    &&& final(reg).windows@ == old(reg).windows@
                    &&& final(reg).panes@.len() == old(reg).panes@.len() + 1
                    &&& (forall|j: int|
                        0 <= j < old(reg).panes@.len() ==> final(reg).panes@[j] == old(
                            reg,
                        ).panes@[j])
                    &&& final(reg).tabs@.len() == old(reg).tabs@.len() + 1
                    &&& (forall|j: int|
                        0 <= j < old(reg).tabs@.len() ==> final(reg).tabs@[j] == old(
                            reg,
                        ).tabs@[j])
                    &&& final(reg).tabs@.last().panes@ == seq![final(reg).panes@.last().pane_id]
                }
            },
        },
{
    let pane = match domain.spawn_pane(reg, ids, config, host, size, command, command_dir) {
        Ok(p) => p,
        Err(e) => {
            return Err(e);
        },
    };
    let tab_id = alloc_tab_id(ids);
    let mut tab = Tab::new(tab_id, size);
    tab.assign_pane(pane);
    proof {
        assert forall|p: PaneId| #[trigger] tab.has_pane(p) implies !pane_in_some_tab(
            reg.tabs@,
            p,
        ) by {
            assert(tab.panes@ == seq![pane]);
            if tab.has_pane(p) {
                let k = choose|k: int| 0 <= k < tab.panes@.len() && tab.panes@[k] == p;
                assert(p == pane);
            }
            if pane_in_some_tab(reg.tabs@, p) {
                let w = choose|w: int| 0 <= w < reg.tabs@.len() && #[trigger] reg.tabs@[w].has_pane(p);
                let k2 = choose|k2: int|
                    0 <= k2 < reg.tabs@[w].panes@.len() && reg.tabs@[w].panes@[k2] == p;
                assert(reg.tabs@[w].panes@[k2] < old(ids).next);
            }
        };
        if has_tab(reg.tabs@, tab_id) {
            let w = choose|w: int| 0 <= w < reg.tabs@.len() && reg.tabs@[w].tab_id == tab_id;
            assert(reg.tabs@[w].tab_id < old(ids).next);
        }
    }
    let added = reg.add_tab_and_active_pane(tab);
    proof {
        assert(added);
        if crate::registry::tab_in_some_window(reg.windows@, tab_id) {
            let w = choose|w: int|
                0 <= w < reg.windows@.len() && #[trigger] reg.windows@[w].tabs@.contains(tab_id);
            let k2 = choose|k2: int|
                0 <= k2 < reg.windows@[w].tabs@.len() && reg.windows@[w].tabs@[k2] == tab_id;
            assert(reg.windows@[w].tabs@[k2] < old(ids).next);
        }
    }
    let attached = reg.add_tab_to_window(tab_id, window);
    if !attached {
        return Err(DomainError::NotFound(window));
    }
    proof {
        let t_new = reg.tabs@;
        assert(t_new.last().tab_id == tab_id);
        assert(has_tab(t_new, tab_id));
        assert(t_new.last().size == size);
        assert(t_new.last().panes@ == seq![pane]);
        assert(t_new.last().panes@[0] == pane);
        assert(reg.panes@.last().pane_id == pane);
        assert(forall|j: int| 0 <= j < old(reg).tabs@.len() ==> t_new[j] == old(reg).tabs@[j]);
        assert(crate::registry::tab_in_some_window(reg.windows@, tab_id));
    }
    Ok(tab_id)
}

/// Whether the target container, the session within it, and the layout
/// all pass a split's three validation steps.
pub open spec fn split_checks_pass(
    reg: Registry,
    tab_id: TabId,
    pane_id: PaneId,
    req: SplitRequest,
) -> bool {
    &&& has_tab(reg.tabs@, tab_id)
    &&& reg.tabs@[tab_index_of(reg.tabs@, tab_id)].has_pane(pane_id)
    &&& crate::registry::splittable(
        reg.tabs@[tab_index_of(reg.tabs@, tab_id)].size,
        req.direction,
    )
}

/// Whether a session to be moved can be resolved through the registry:
/// it is in the pane table, a member of some container, and that
/// container is listed by some window.
pub open spec fn move_source_resolvable(reg: Registry, src: PaneId) -> bool {
    &&& has_pane_entry(reg.panes@, src)
    &&& pane_in_some_tab(reg.tabs@, src)
    &&& crate::registry::tab_in_some_window(
        reg.windows@,
        reg.tabs@[tab_of_pane(reg.tabs@, src)].tab_id,
    )
}

/// The member position at which a split installs the new session: the
/// divided member's own position, or one past it when the request
/// targets the second half.
pub open spec fn split_insert_at(panes: Seq<PaneId>, pane_id: PaneId, req: SplitRequest) -> int {
    crate::registry::list_index_of(panes, pane_id) + (if req.target_is_second {
        1int
    } else {
        0int
    })
}


/// Splits an existing session's cell in a container in two, installing
/// into the new slot either a freshly spawned session or an existing
/// one moved out of its current container.  A moved session keeps its
/// process and handles: nothing is restarted.  After a successful
/// split the installed session is a member of the target container and
/// of no other.
#[verifier::rlimit(100)]
pub fn split_pane<D: Domain>(
    domain: &D,
    reg: &mut Registry,
    ids: &mut IdAllocator,
    config: &ConfigSnapshot,
    host: &HostPort,
    source: SplitSource,
    tab_id: TabId,
    pane_id: PaneId,
    split_request: SplitRequest,
) -> (r: Result<PaneId, DomainError>)
    requires
        old(reg).wf(),
        config.wf(),
        host.response_wf(),
        match source {
            SplitSource::Spawn { command: Some(c), .. } => c.wf(),
            _ => true,
        },
        old(reg).ids_below(old(ids).next as int),
        old(ids).next < usize::MAX - 1,
    ensures
        final(reg).wf(),
        final(reg).ids_below(final(ids).next as int),
        !has_tab(old(reg).tabs@, tab_id) ==> r == Err::<PaneId, DomainError>(
            DomainError::InvalidContainer(tab_id),
        ) && *final(reg) == *old(reg),
        ({
            let ti = tab_index_of(old(reg).tabs@, tab_id);
            let target = old(reg).tabs@[ti];
            &&& (has_tab(old(reg).tabs@, tab_id) && !target.has_pane(pane_id)) ==> r
                == Err::<PaneId, DomainError>(DomainError::InvalidSession(pane_id)) && *final(reg)
                == *old(reg)
            &&& (has_tab(old(reg).tabs@, tab_id) && target.has_pane(pane_id) && !crate::registry::splittable(
                target.size,
                split_request.direction,
            )) ==> r == Err::<PaneId, DomainError>(
                DomainError::InvalidSplitIndex(
                    crate::registry::list_index_of(target.panes@, pane_id) as usize,
                ),
            ) && *final(reg) == *old(reg)
            &&& (match source {
                SplitSource::MovePane(src) => (split_checks_pass(
                    *old(reg),
                    tab_id,
                    pane_id,
                    split_request,
                ) && !move_source_resolvable(*old(reg), src)) ==> r == Err::<
                    PaneId,
                    DomainError,
                >(DomainError::NotFound(src)) && *final(reg) == *old(reg),
                _ => true,
            })
        }),
        (match source {
            SplitSource::MovePane(src) => (split_checks_pass(*old(reg), tab_id, pane_id, split_request)
                && move_source_resolvable(*old(reg), src)) ==> {
                let sti = tab_of_pane(old(reg).tabs@, src);
                // a move between different containers always succeeds:
                // the whole step is the registry's own logic
                &&& (old(reg).tabs@[sti].tab_id != tab_id ==> r is Ok)
                // only a move within the target container can fail after
                // resolution, and then the session was already removed:
                // it is in no container, never in two
                &&& (match r {
                    Err(e) => {
                        &&& old(reg).tabs@[sti].tab_id == tab_id
                        &&& !pane_in_some_tab(final(reg).tabs@, src)
                        &&& ({
                            let target = old(reg).tabs@[tab_index_of(old(reg).tabs@, tab_id)];
                            ||| (e == DomainError::InvalidContainer(tab_id) && !has_tab(
                                final(reg).tabs@,
                                tab_id,
                            ))
                            ||| {
                                &&& e == DomainError::InvalidSplitIndex(
                                    crate::registry::list_index_of(
                                        target.panes@,
                                        pane_id,
                                    ) as usize,
                                )
                                &&& has_tab(final(reg).tabs@, tab_id)
                                &&& final(reg).tabs@[tab_index_of(
                                    final(reg).tabs@,
                                    tab_id,
                                )].panes@ == target.panes@.remove(
                                    crate::registry::list_index_of(target.panes@, src),
                                )
                            }
                        })
                    },
                    Ok(_) => true,
                })
            },
            SplitSource::Spawn { .. } => true,
        }),
        match r {
            Ok(p) => {
                &&& has_tab(final(reg).tabs@, tab_id)
                &&& final(reg).tabs@[tab_index_of(final(reg).tabs@, tab_id)].has_pane(p)
                &&& (forall|j: int|
                    0 <= j < final(reg).tabs@.len() && j != tab_index_of(final(reg).tabs@, tab_id)
                        ==> !(#[trigger] final(reg).tabs@[j]).has_pane(p))
                &&& ({
                    let ti = tab_index_of(old(reg).tabs@, tab_id);
                    let target = old(reg).tabs@[ti];
                    let pos = split_insert_at(target.panes@, pane_id, split_request);
                    let tgt_new = final(reg).tabs@[tab_index_of(final(reg).tabs@, tab_id)];
                    &&& tgt_new.tab_id == tab_id
                    &&& tgt_new.size == target.size
                    &&& (match source {
                        SplitSource::Spawn { .. } => {
                            &&& tgt_new.panes@ == target.panes@.insert(pos, p)
                            &&& final(reg).panes@.last().pane_id == p
                            &&& final(reg).panes@.last().size == crate::registry::split_sizes(
                                target.size,
                                split_request.direction,
                            ).second
                        },
                        SplitSource::MovePane(src) => {
                            let sti = tab_of_pane(old(reg).tabs@, src);
                            let src_tab = old(reg).tabs@[sti];
                            if src_tab.tab_id == tab_id {
                                tgt_new.panes@ == target.panes@.remove(
                                    crate::registry::list_index_of(target.panes@, src),
                                ).insert(pos, src)
                            } else {
                                &&& tgt_new.panes@ == target.panes@.insert(pos, src)
                                &&& (src_tab.panes@.len() > 1 ==> has_tab(
                                    final(reg).tabs@,
                                    src_tab.tab_id,
                                ) && final(reg).tabs@[tab_index_of(
                                    final(reg).tabs@,
                                    src_tab.tab_id,
                                )].panes@ == src_tab.panes@.remove(
                                    crate::registry::list_index_of(src_tab.panes@, src),
                                ))
                            }
                        },
                    })
                })
                // every container other than the target and the move's
                // source is untouched
                &&& (forall|x: TabId|
                    x != tab_id && (match source {
                        SplitSource::MovePane(src) => x != old(reg).tabs@[tab_of_pane(
                            old(reg).tabs@,
                            src,
                        )].tab_id,
                        _ => true,
                    }) ==> ((#[trigger] has_tab(final(reg).tabs@, x)) <==> has_tab(
                        old(reg).tabs@,
                        x,
                    )) && (has_tab(old(reg).tabs@, x) ==> final(reg).tabs@[tab_index_of(
                        final(reg).tabs@,
                        x,
                    )] == old(reg).tabs@[tab_index_of(old(reg).tabs@, x)]))
                &&& (match source {
                    SplitSource::MovePane(src) => {
                        &&& p == src
                        &&& final(reg).panes@ == old(reg).panes@
                        &&& final(ids).next == old(ids).next
                        &&& {
                            let sti = tab_of_pane(old(reg).tabs@, src);
                            old(reg).tabs@[sti].panes@.len() == 1 ==> !has_tab(
                                final(reg).tabs@,
                                old(reg).tabs@[sti].tab_id,
                            )
                        }
                    },
                    SplitSource::Spawn { .. } => final(reg).panes@.len() == old(reg).panes@.len()
                        + 1,
                })
            },
            Err(e) => {
                match source {
                    SplitSource::MovePane(src) => {
                        &&& final(reg).panes@ == old(reg).panes@
                        &&& final(ids).next == old(ids).next
                    },
                    SplitSource::Spawn { .. } => {
                        &&& final(reg).panes@ == old(reg).panes@
                        &&& final(reg).tabs@ == old(reg).tabs@
                        &&& final(reg).windows@ == old(reg).windows@
                    },
                }
            },
        },
{
    let ghost source0 = source;
    let ti = match reg.get_tab_index(tab_id) {
        None => {
            return Err(DomainError::InvalidContainer(tab_id));
        },
        Some(t) => t,
    };
    let pane_index = match reg.tabs[ti].find_pane_index(pane_id) {
        None => {
            return Err(DomainError::InvalidSession(pane_id));
        },
        Some(i) => i,
    };
    let split_size = match reg.tabs[ti].compute_split_size(pane_index, split_request) {
        None => {
            proof {
                let s = reg.tabs@[ti as int].panes@;
                assert(s[pane_index as int] == pane_id);
                assert(crate::registry::list_index_of(s, pane_id) == pane_index as int) by {
                    let w = crate::registry::list_index_of(s, pane_id);
                    assert(s.contains(pane_id)) by {
                        assert(s[pane_index as int] == pane_id);
                    };
                    assert(0 <= w < s.len() && s[w] == pane_id);
                };
            }
            return Err(DomainError::InvalidSplitIndex(pane_index));
        },
        Some(s) => s,
    };
    proof {
        let t_old = old(reg).tabs@;
        assert(t_old[ti as int].panes@[pane_index as int] == pane_id);
        assert(tab_index_of(t_old, tab_id) == ti as int) by {
            assert(t_old[ti as int].tab_id == tab_id);
            let w = tab_index_of(t_old, tab_id);
            assert(0 <= w < t_old.len() && t_old[w].tab_id == tab_id);
        };
        assert(crate::registry::list_index_of(t_old[ti as int].panes@, pane_id)
            == pane_index as int) by {
            let s0 = t_old[ti as int].panes@;
            assert(s0.contains(pane_id)) by {
                assert(s0[pane_index as int] == pane_id);
            };
            let w = crate::registry::list_index_of(s0, pane_id);
            assert(0 <= w < s0.len() && s0[w] == pane_id);
        };
    }
    let ghost mut g_sti: int = 0;
    let ghost mut g_dead: bool = false;
    let new_pane: PaneId = match source {
        SplitSource::Spawn { command, command_dir } => {
            match domain.spawn_pane(reg, ids, config, host, split_size.second, command, command_dir)
            {
                Ok(p) => p,
                Err(e) => {
                    return Err(e);
                },
            }
        },
        SplitSource::MovePane(src) => {
            let loc = match reg.resolve_pane_id(src) {
                None => {
                    return Err(DomainError::NotFound(src));
                },
                Some(l) => l,
            };
            let src_tab_id = loc.2;
            let sti = match reg.get_tab_index(src_tab_id) {
                None => {
                    return Err(DomainError::InvalidContainer(src_tab_id));
                },
                Some(t) => t,
            };
            let ghost tabs0 = reg.tabs@;
            proof {
                assert(tabs0 == old(reg).tabs@);
                let stp = tab_of_pane(tabs0, src);
                assert(0 <= stp < tabs0.len() && tabs0[stp].has_pane(src));
                assert(tabs0[stp].tab_id == src_tab_id);
                assert(tabs0[sti as int].tab_id == src_tab_id);
                assert(stp == sti as int);
                assert(tabs0[sti as int].has_pane(src));
                g_sti = sti as int;
            }
            let mut src_tab = reg.tabs.remove(sti);
            let removed = src_tab.remove_pane(src);
            let now_dead = src_tab.is_dead();
            reg.tabs.insert(sti, src_tab);
            proof {
                let t_new = reg.tabs@;
                tabs0.remove_ensures(sti as int);
                tabs0.remove(sti as int).insert_ensures(sti as int, t_new[sti as int]);
                assert(t_new == tabs0.remove(sti as int).insert(sti as int, t_new[sti as int]));
                assert forall|j: int| 0 <= j < tabs0.len() && j != sti implies t_new[j]
                    == tabs0[j] by {
                    if j < sti as int {
                        assert(tabs0.remove(sti as int)[j] == tabs0[j]);
                    } else {
                        assert(tabs0.remove(sti as int)[j - 1] == tabs0[j]);
                    }
                };
                assert(t_new.len() == tabs0.len());
                assert(removed);
                assert(reg.wf()) by {
                    assert forall|i1: int, j1: int|
                        0 <= i1 < t_new.len() && 0 <= j1 < t_new.len() && i1 != j1 implies t_new[i1].tab_id != t_new[j1].tab_id by {
                        assert(t_new[i1].tab_id == tabs0[i1].tab_id);
                        assert(t_new[j1].tab_id == tabs0[j1].tab_id);
                    };
                    assert forall|i1: int| 0 <= i1 < t_new.len() implies (#[trigger] t_new[i1]).wf() by {
                        if i1 != sti as int {
                            assert(t_new[i1] == tabs0[i1]);
                        }
                    };
                    assert forall|i1: int, j1: int, q: PaneId|
                        0 <= i1 < t_new.len() && 0 <= j1 < t_new.len() && i1 != j1 && #[trigger] t_new[i1].has_pane(q) implies !(#[trigger] t_new[j1].has_pane(q)) by {
                        if i1 == sti as int {
                            assert(tabs0[i1].has_pane(q));
                            assert(t_new[j1] == tabs0[j1]);
                        } else if j1 == sti as int {
                            assert(t_new[i1] == tabs0[i1]);
                            if t_new[j1].has_pane(q) {
                                assert(tabs0[j1].has_pane(q));
                            }
                        } else {
                            assert(t_new[i1] == tabs0[i1]);
                            assert(t_new[j1] == tabs0[j1]);
                        }
                    };
                };
                assert forall|n: int| old(reg).ids_below(n) implies reg.ids_below(n) by {
                    if old(reg).ids_below(n) {
                        assert forall|i1: int, k1: int|
                            0 <= i1 < t_new.len() && 0 <= k1
                                < t_new[i1].panes@.len() implies #[trigger] t_new[i1].panes@[k1]
                            < n by {
                            if i1 == sti as int {
                                let q = t_new[i1].panes@[k1];
                                assert(t_new[i1].has_pane(q)) by {
                                    assert(t_new[i1].panes@[k1] == q);
                                };
                                assert(tabs0[i1].has_pane(q));
                                let m = choose|m: int|
                                    0 <= m < tabs0[i1].panes@.len() && tabs0[i1].panes@[m] == q;
                                assert(tabs0[i1].panes@[m] < n);
                            } else {
                                assert(t_new[i1] == tabs0[i1]);
                            }
                        };
                        assert forall|i1: int| 0 <= i1 < t_new.len() implies (#[trigger] t_new[i1]).tab_id < n by {
                            assert(t_new[i1].tab_id == tabs0[i1].tab_id);
                        };
                    }
                };
                assert(!pane_in_some_tab(t_new, src)) by {
                    if pane_in_some_tab(t_new, src) {
                        let w = choose|w: int|
                            0 <= w < t_new.len() && #[trigger] t_new[w].has_pane(src);
                        if w == sti as int {
                            assert(!t_new[w].has_pane(src));
                        } else {
                            assert(t_new[w] == tabs0[w]);
                            assert(tabs0[sti as int].has_pane(src));
                        }
                    }
                };
                assert(tabs0[sti as int].panes@.len() == 1 ==> now_dead);
                assert(now_dead ==> tabs0[sti as int].panes@.len() == 1);
                assert(t_new[sti as int].tab_id == src_tab_id);
                assert(t_new[sti as int].size == tabs0[sti as int].size);
                assert(t_new[sti as int].panes@ == tabs0[sti as int].panes@.remove(
                    crate::registry::list_index_of(tabs0[sti as int].panes@, src),
                ));
                g_dead = now_dead;
            }
            let ghost tabs_mid = reg.tabs@;
            if now_dead {
                reg.remove_tab(src_tab_id);
                proof {
                    assert(!has_tab(reg.tabs@, src_tab_id));
                    assert(crate::registry::tab_index_of(tabs_mid, src_tab_id) == sti as int) by {
                        assert(tabs_mid[sti as int].tab_id == src_tab_id);
                        let w = crate::registry::tab_index_of(tabs_mid, src_tab_id);
                        assert(0 <= w < tabs_mid.len() && tabs_mid[w].tab_id == src_tab_id);
                    };
                    tabs_mid.remove_ensures(sti as int);
                    assert(forall|j: int| 0 <= j < sti as int ==> reg.tabs@[j] == tabs_mid[j]);
                    assert(forall|j: int|
                        sti as int <= j < reg.tabs@.len() ==> reg.tabs@[j] == tabs_mid[j + 1]);
                    assert(!pane_in_some_tab(reg.tabs@, src)) by {
                        if pane_in_some_tab(reg.tabs@, src) {
                            let w = choose|w: int|
                                0 <= w < reg.tabs@.len() && #[trigger] reg.tabs@[w].has_pane(src);
                            let idx = crate::registry::tab_index_of(tabs_mid, src_tab_id);
                            assert(tabs_mid[sti as int].tab_id == src_tab_id);
                            assert(has_tab(tabs_mid, src_tab_id));
                            assert(0 <= idx < tabs_mid.len() && tabs_mid[idx].tab_id == src_tab_id);
                            tabs_mid.remove_ensures(idx);
                            let m: int = if w < idx {
                                w
                            } else {
                                w + 1
                            };
                            assert(reg.tabs@[w] == tabs_mid[m]);
                            assert(tabs_mid[m].has_pane(src));
                        }
                    };
                }
            }
            src
        },
    };
    let ghost mid = *reg;
    proof {
        assert(!pane_in_some_tab(mid.tabs@, new_pane)) by {
            match source0 {
                SplitSource::Spawn { .. } => {
                    if pane_in_some_tab(mid.tabs@, new_pane) {
                        let w = choose|w: int|
                            0 <= w < mid.tabs@.len() && #[trigger] mid.tabs@[w].has_pane(new_pane);
                        let k = choose|k: int|
                            0 <= k < mid.tabs@[w].panes@.len() && mid.tabs@[w].panes@[k]
                                == new_pane;
                        assert(mid.tabs@ == old(reg).tabs@);
                        assert(old(reg).tabs@[w].panes@[k] < old(ids).next);
                    }
                },
                SplitSource::MovePane(src) => {
                    assert(new_pane == src);
                    assert(!pane_in_some_tab(reg.tabs@, src));
                },
            }
        };
        match source0 {
            SplitSource::Spawn { .. } => {
                assert(mid.tabs@ == old(reg).tabs@);
            },
            SplitSource::MovePane(src) => {
                let t_old = old(reg).tabs@;
                assert(tab_of_pane(t_old, src) == g_sti);
                assert(0 <= g_sti < t_old.len());
                assert(g_dead == (t_old[g_sti].panes@.len() == 1));
                if !g_dead {
                    assert(mid.tabs@.len() == t_old.len());
                    assert(forall|j: int|
                        0 <= j < mid.tabs@.len() && j != g_sti ==> mid.tabs@[j] == t_old[j]);
                    assert(mid.tabs@[g_sti].tab_id == t_old[g_sti].tab_id);
                    assert(mid.tabs@[g_sti].size == t_old[g_sti].size);
                    assert(mid.tabs@[g_sti].panes@ == t_old[g_sti].panes@.remove(
                        crate::registry::list_index_of(t_old[g_sti].panes@, src),
                    ));
                } else {
                    assert(mid.tabs@.len() + 1 == t_old.len());
                    assert(forall|j: int| 0 <= j < g_sti ==> mid.tabs@[j] == t_old[j]);
                    assert(forall|j: int|
                        g_sti <= j < mid.tabs@.len() ==> mid.tabs@[j] == t_old[j + 1]);
                    assert(!has_tab(mid.tabs@, t_old[g_sti].tab_id));
                }
            },
        }
    }
    let ti2 = match reg.get_tab_index(tab_id) {
        None => {
            return Err(DomainError::InvalidContainer(tab_id));
        },
        Some(t) => t,
    };
    let ghost tabs1 = reg.tabs@;
    let mut target = reg.tabs.remove(ti2);
    proof {
        assert(target == tabs1[ti2 as int]);
        assert(target.wf());
        assert(!target.has_pane(new_pane)) by {
            match source {
                SplitSource::Spawn { .. } => {
                    if target.has_pane(new_pane) {
                        let k = choose|k: int|
                            0 <= k < target.panes@.len() && target.panes@[k] == new_pane;
                        assert(mid.ids_below(ids.next as int));
                        assert(tabs1[ti2 as int].panes@[k] < ids.next);
                    }
                },
                SplitSource::MovePane(src) => {
                },
            }
        };
    }
    let ins = target.split_and_insert(pane_index, split_request, new_pane);
    let ghost target_after = target;
    reg.tabs.insert(ti2, target);
    proof {
        let t_new = reg.tabs@;
        tabs1.remove_ensures(ti2 as int);
        tabs1.remove(ti2 as int).insert_ensures(ti2 as int, target_after);
        assert(t_new == tabs1.remove(ti2 as int).insert(ti2 as int, target_after));
        assert forall|j: int| 0 <= j < tabs1.len() && j != ti2 implies t_new[j] == tabs1[j] by {
            if j < ti2 as int {
                assert(tabs1.remove(ti2 as int)[j] == tabs1[j]);
            } else {
                assert(tabs1.remove(ti2 as int)[j - 1] == tabs1[j]);
            }
        };
        assert(t_new.len() == tabs1.len());
        assert(t_new[ti2 as int] == target_after);
        assert(reg.wf()) by {
            assert forall|i1: int, j1: int|
                0 <= i1 < t_new.len() && 0 <= j1 < t_new.len() && i1 != j1 implies t_new[i1].tab_id
                != t_new[j1].tab_id by {
                assert(t_new[i1].tab_id == tabs1[i1].tab_id);
                assert(t_new[j1].tab_id == tabs1[j1].tab_id);
            };
            assert forall|i1: int| 0 <= i1 < t_new.len() implies (#[trigger] t_new[i1]).wf() by {
                if i1 != ti2 as int {
                    assert(t_new[i1] == tabs1[i1]);
                }
            };
            assert forall|i1: int, j1: int, q: PaneId|
                0 <= i1 < t_new.len() && 0 <= j1 < t_new.len() && i1 != j1 && #[trigger] t_new[i1].has_pane(q) implies !(#[trigger] t_new[j1].has_pane(q)) by {
                if i1 == ti2 as int {
                    if q == new_pane {
                        if t_new[j1].has_pane(q) {
                            assert(tabs1[j1].has_pane(q));
                            assert(pane_in_some_tab(tabs1, new_pane));
                            assert(tabs1 == mid.tabs@);
                            assert(false);
                        }
                    } else {
                        assert(tabs1[i1].has_pane(q));
                        assert(t_new[j1] == tabs1[j1]);
                    }
                } else if j1 == ti2 as int {
                    assert(t_new[i1] == tabs1[i1]);
                    if t_new[j1].has_pane(q) {
                        if q == new_pane {
                            assert(tabs1[i1].has_pane(new_pane));
                            assert(pane_in_some_tab(tabs1, new_pane));
                            assert(tabs1 == mid.tabs@);
                            assert(false);
                        } else {
                            assert(tabs1[j1].has_pane(q));
                        }
                    }
                } else {
                    assert(t_new[i1] == tabs1[i1]);
                    assert(t_new[j1] == tabs1[j1]);
                }
            };
        };
        assert(new_pane < ids.next) by {
            match source0 {
                SplitSource::Spawn { .. } => {},
                SplitSource::MovePane(src) => {
                    let stp = tab_of_pane(old(reg).tabs@, src);
                    assert(0 <= stp < old(reg).tabs@.len() && old(reg).tabs@[stp].has_pane(src));
                    let k = choose|k: int|
                        0 <= k < old(reg).tabs@[stp].panes@.len() && old(
                            reg,
                        ).tabs@[stp].panes@[k] == src;
                    assert(old(reg).tabs@[stp].panes@[k] < old(ids).next);
                },
            }
        };
        assert(mid.ids_below(ids.next as int));
        assert(reg.ids_below(ids.next as int)) by {
            assert forall|i1: int, k1: int|
                0 <= i1 < t_new.len() && 0 <= k1 < t_new[i1].panes@.len() implies #[trigger] t_new[i1].panes@[k1] < ids.next by {
                if i1 == ti2 as int {
                    let q = t_new[i1].panes@[k1];
                    assert(t_new[i1].has_pane(q)) by {
                        assert(t_new[i1].panes@[k1] == q);
                    };
                    if q == new_pane {
                    } else {
                        assert(tabs1[i1].has_pane(q));
                        let m = choose|m: int|
                            0 <= m < tabs1[i1].panes@.len() && tabs1[i1].panes@[m] == q;
                        assert(tabs1[i1].panes@[m] < ids.next);
                    }
                } else {
                    assert(t_new[i1] == tabs1[i1]);
                }
            };
            assert forall|i1: int| 0 <= i1 < t_new.len() implies (#[trigger] t_new[i1]).tab_id
                < ids.next by {
                assert(t_new[i1].tab_id == tabs1[i1].tab_id);
            };
        };
    }
    match ins {
        Err(e) => Err(e),
        Ok(()) => {
            proof {
                let t_new = reg.tabs@;
                assert(t_new[ti2 as int].tab_id == tab_id);
                assert(has_tab(t_new, tab_id));
                assert(tab_index_of(t_new, tab_id) == ti2 as int) by {
                    let w = tab_index_of(t_new, tab_id);
                    assert(0 <= w < t_new.len() && t_new[w].tab_id == tab_id);
                };
                assert(t_new[ti2 as int].has_pane(new_pane));
                assert forall|j: int|
                    0 <= j < t_new.len() && j != ti2 implies !(#[trigger] t_new[j]).has_pane(
                    new_pane,
                ) by {
                    assert(t_new[j] == tabs1[j]);
                    if tabs1[j].has_pane(new_pane) {
                        assert(pane_in_some_tab(tabs1, new_pane));
                        assert(tabs1 == mid.tabs@);
                        assert(false);
                    }
                };
                let t_old = old(reg).tabs@;
                let tio = tab_index_of(t_old, tab_id);
                assert(tio == ti as int);
                let target0 = t_old[tio];
                let pos = split_insert_at(target0.panes@, pane_id, split_request);
                let at_g: int = pane_index as int + (if split_request.target_is_second {
                    1int
                } else {
                    0int
                });
                assert(pos == at_g);
                assert(t_new[ti2 as int].panes@ == tabs1[ti2 as int].panes@.insert(
                    at_g,
                    new_pane,
                ));
                assert(t_new[ti2 as int].size == tabs1[ti2 as int].size);
                match source0 {
                    SplitSource::Spawn { .. } => {
                        assert(tabs1 == t_old);
                        assert(ti2 as int == tio) by {
                            assert(tabs1[ti2 as int].tab_id == tab_id);
                            assert(tabs1[tio].tab_id == tab_id);
                        };
                        assert(t_new[ti2 as int].panes@ == target0.panes@.insert(pos, new_pane));
                        assert(t_new[ti2 as int].size == target0.size);
                        assert(reg.panes@.last().pane_id == new_pane);
                        assert(reg.panes@.last().size == split_size.second);
                        assert(split_size == crate::registry::split_sizes(
                            target0.size,
                            split_request.direction,
                        ));
                    },
                    SplitSource::MovePane(src) => {
                        assert(tab_of_pane(t_old, src) == g_sti);
                        let src0 = t_old[g_sti];
                        if src0.tab_id == tab_id {
                            assert(!g_dead) by {
                                if g_dead {
                                    assert(!has_tab(mid.tabs@, src0.tab_id));
                                    assert(tabs1[ti2 as int].tab_id == tab_id);
                                    assert(has_tab(tabs1, tab_id));
                                }
                            };
                            assert(g_sti == tio) by {
                                assert(t_old[g_sti].tab_id == tab_id);
                                assert(t_old[tio].tab_id == tab_id);
                            };
                            assert(ti2 as int == g_sti) by {
                                assert(tabs1[g_sti].tab_id == tab_id);
                                assert(tabs1[ti2 as int].tab_id == tab_id);
                            };
                            assert(tabs1[ti2 as int].panes@ == target0.panes@.remove(
                                crate::registry::list_index_of(target0.panes@, src),
                            ));
                        } else {
                            assert(g_sti != tio) by {
                                assert(t_old[g_sti].tab_id != tab_id);
                                assert(t_old[tio].tab_id == tab_id);
                            };
                            if !g_dead {
                                assert(tabs1[tio] == t_old[tio]);
                                assert(ti2 as int == tio) by {
                                    assert(tabs1[tio].tab_id == tab_id);
                                    assert(tabs1[ti2 as int].tab_id == tab_id);
                                };
                            } else {
                                let m: int = if tio < g_sti {
                                    tio
                                } else {
                                    tio - 1
                                };
                                assert(tabs1[m] == t_old[tio]);
                                assert(ti2 as int == m) by {
                                    assert(tabs1[m].tab_id == tab_id);
                                    assert(tabs1[ti2 as int].tab_id == tab_id);
                                };
                            }
                            assert(t_new[ti2 as int].panes@ == target0.panes@.insert(pos, src));
                            assert(t_new[ti2 as int].size == target0.size);
                            if src0.panes@.len() > 1 {
                                assert(!g_dead);
                                assert(tabs1[g_sti].tab_id == src0.tab_id);
                                assert(g_sti != ti2 as int);
                                assert(t_new[g_sti] == tabs1[g_sti]);
                                assert(has_tab(t_new, src0.tab_id)) by {
                                    assert(t_new[g_sti].tab_id == src0.tab_id);
                                };
                                assert(tab_index_of(t_new, src0.tab_id) == g_sti) by {
                                    let w = tab_index_of(t_new, src0.tab_id);
                                    assert(0 <= w < t_new.len() && t_new[w].tab_id == src0.tab_id);
                                };
                                assert(t_new[g_sti].panes@ == src0.panes@.remove(
                                    crate::registry::list_index_of(src0.panes@, src),
                                ));
                            }
                        }
                    },
                }
                assert forall|x: TabId|
                    x != tab_id && (match source0 {
                        SplitSource::MovePane(src) => x != t_old[tab_of_pane(t_old, src)].tab_id,
                        _ => true,
                    }) implies ((#[trigger] has_tab(t_new, x)) <==> has_tab(t_old, x)) && (
                has_tab(t_old, x) ==> t_new[tab_index_of(t_new, x)] == t_old[tab_index_of(
                    t_old,
                    x,
                )]) by {
                    if has_tab(t_old, x) {
                        let k = tab_index_of(t_old, x);
                        assert(0 <= k < t_old.len() && t_old[k].tab_id == x);
                        let k2: int = match source0 {
                            SplitSource::Spawn { .. } => k,
                            SplitSource::MovePane(src) => {
                                if g_dead && k > g_sti {
                                    k - 1
                                } else {
                                    k
                                }
                            },
                        };
                        assert(tabs1[k2] == t_old[k]) by {
                            match source0 {
                                SplitSource::Spawn { .. } => {
                                    assert(tabs1 == t_old);
                                },
                                SplitSource::MovePane(src) => {
                                    assert(k != g_sti) by {
                                        assert(t_old[tab_of_pane(t_old, src)].tab_id != x);
                                    };
                                },
                            }
                        };
                        assert(k2 != ti2 as int) by {
                            assert(tabs1[k2].tab_id == x);
                            assert(tabs1[ti2 as int].tab_id == tab_id);
                        };
                        assert(t_new[k2] == t_old[k]);
                        assert(has_tab(t_new, x)) by {
                            assert(t_new[k2].tab_id == x);
                        };
                        assert(tab_index_of(t_new, x) == k2) by {
                            let w = tab_index_of(t_new, x);
                            assert(0 <= w < t_new.len() && t_new[w].tab_id == x);
                        };
                    }
                    if has_tab(t_new, x) {
                        let k3 = tab_index_of(t_new, x);
                        assert(0 <= k3 < t_new.len() && t_new[k3].tab_id == x);
                        assert(k3 != ti2 as int) by {
                            assert(t_new[ti2 as int].tab_id == tab_id);
                        };
                        assert(t_new[k3] == tabs1[k3]);
                        match source0 {
                            SplitSource::Spawn { .. } => {
                                assert(tabs1 == t_old);
                                assert(has_tab(t_old, x)) by {
                                    assert(t_old[k3].tab_id == x);
                                };
                            },
                            SplitSource::MovePane(src) => {
                                if !g_dead {
                                    assert(k3 != g_sti) by {
                                        assert(tabs1[g_sti].tab_id == t_old[g_sti].tab_id);
                                        assert(t_old[tab_of_pane(t_old, src)].tab_id != x);
                                    };
                                    assert(tabs1[k3] == t_old[k3]);
                                    assert(has_tab(t_old, x)) by {
                                        assert(t_old[k3].tab_id == x);
                                    };
                                } else {
                                    let m2: int = if k3 < g_sti {
                                        k3
                                    } else {
                                        k3 + 1
                                    };
                                    assert(tabs1[k3] == t_old[m2]);
                                    assert(has_tab(t_old, x)) by {
                                        assert(t_old[m2].tab_id == x);
                                    };
                                }
                            },
                        }
                    }
                };
            }
            Ok(new_pane)
        },
    }
}

} // verus!
