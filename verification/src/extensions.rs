//! Extensions: commands dispatched by name, wrappers registered around
//! tools, the tools an extension declares, and the text their runs give.

use vstd::prelude::*;
use crate::order::{find, has_key, keys_unique, lemma_find_at, lemma_find_insert, lemma_find_update};
use crate::text::{extend_str, string_of, trim_ws};

verus! {

broadcast use vstd::string::group_string_axioms;

// ---------------------------------------------------------------------------
// Declarations
// ---------------------------------------------------------------------------

/// How an extension tool runs.
#[derive(Debug, Clone, Copy, PartialEq, Eq, Structural)]
pub enum ExecutorType {
    /// A shell command.
    Shell,
    /// A program speaking JSON-RPC on its standard streams.
    Binary,
    /// A WebAssembly module.
    Wasm,
}

impl Default for ExecutorType {
    fn default() -> (r: Self)
        ensures
            r == ExecutorType::Shell,
    {
        ExecutorType::Shell
    }
}

/// A command an extension declares.
#[derive(Debug, Clone)]
pub struct ExtensionCommand {
    pub name: String,
    pub description: String,
}

/// How a tool wrapper is implemented.
#[derive(Debug, Clone, Copy, PartialEq, Eq, Structural)]
pub enum WrapperType {
    Shell,
    Wasm,
    Binary,
    /// Code run by an embedded runtime.
    Inline,
}

/// A wrapper around the calls of a tool (`*` for every tool).
#[derive(Debug, Clone)]
pub struct ToolWrapperDef {
    pub tool_name: String,
    pub description: String,
    pub wrapper_type: WrapperType,
    /// The script run before the tool.
    pub before_hook: Option<String>,
    /// The script run after the tool.
    pub after_hook: Option<String>,
}

/// The model of a [`ToolWrapperDef`].
pub struct WrapperView {
    pub tool_name: Seq<char>,
    pub description: Seq<char>,
    pub wrapper_type: WrapperType,
    pub before_hook: Option<Seq<char>>,
    pub after_hook: Option<Seq<char>>,
}

impl View for ToolWrapperDef {
    type V = WrapperView;

    open spec fn view(&self) -> WrapperView {
        WrapperView {
            tool_name: self.tool_name@,
            description: self.description@,
            wrapper_type: self.wrapper_type,
            before_hook: crate::paths::opt_str_view(self.before_hook),
            after_hook: crate::paths::opt_str_view(self.after_hook),
        }
    }
}

/// Limits of the WebAssembly runtime.
#[derive(Debug, Clone)]
pub struct WasmConfig {
    /// Memory limit in megabytes.
    pub max_memory_mb: u32,
    /// Run time limit in seconds.
    pub timeout_secs: u64,
    /// Whether WASI is offered to modules.
    pub enable_wasi: bool,
}

impl Default for WasmConfig {
    fn default() -> (r: Self)
        ensures
            r.max_memory_mb == 128,
            r.timeout_secs == 30,
            r.enable_wasi,
    {
        WasmConfig { max_memory_mb: 128, timeout_secs: 30, enable_wasi: true }
    }
}

// ---------------------------------------------------------------------------
// Commands
// ---------------------------------------------------------------------------

/// Something that runs a command with its arguments.
pub trait CommandHandler {
    /// Runs the command; the error is a message.
    fn execute(&self, args: &[String]) -> Result<String, String>;
}

/// Why a command could not be run.
#[derive(Debug, PartialEq, Eq)]
pub enum DispatchError {
    /// No command has this name.
    UnknownCommand(String),
    /// The command's handler failed with this message.
    Failed(String),
}

impl<T: CommandHandler + ?Sized> CommandHandler for Box<T> {
    /// Runs the boxed handler: its result is one the boxed handler gives
    /// for these arguments.
    fn execute(&self, args: &[String]) -> (r: Result<String, String>)
        ensures
            call_ensures(T::execute, (&**self, args), r),
    {
        (**self).execute(args)
    }
}

/// Command handlers by name.
pub struct CommandDispatcher<H: CommandHandler = Box<dyn CommandHandler>> {
    names: Vec<String>,
    handlers: Vec<H>,
}

impl<H: CommandHandler> CommandDispatcher<H> {
    /// The names of the registered commands, in registration order.
    pub closed spec fn names(&self) -> Seq<Seq<char>> {
        self.names@.map_values(|s: String| s@)
    }

    /// No name is registered twice, and each has its handler.
    pub closed spec fn wf(&self) -> bool {
        &&& self.handlers@.len() == self.names@.len()
        &&& forall|i: int, j: int|
            0 <= i < self.names().len() && 0 <= j < self.names().len() && i != j ==> self.names()[i]
                != self.names()[j]
    }

    /// A dispatcher without commands.
    pub fn new() -> (r: Self)
        ensures
            r.wf(),
            r.names().len() == 0,
    {
        let r = CommandDispatcher { names: Vec::new(), handlers: Vec::new() };
        assert(r.names() =~= Seq::<Seq<char>>::empty());
        r
    }

    fn position(&self, name: &str) -> (r: Option<usize>)
        ensures
            match r {
                Some(i) => i < self.names().len() && self.names()[i as int] == name@,
                None => !self.names().contains(name@),
            },
    {
        let mut i: usize = 0;
        while i < self.names.len()
            invariant
                i <= self.names@.len(),
                forall|j: int| 0 <= j < i ==> self.names()[j] != name@,
            decreases self.names.len() - i,
        {
            if crate::text::str_eq(self.names[i].as_str(), name) {
                return Some(i);
            }
            i += 1;
        }
        None
    }

    /// Registers a handler under a name, replacing the one registered
    /// under it before.
    pub fn register(&mut self, name: &str, handler: H)
        requires
            old(self).wf(),
        ensures
            final(self).wf(),
            final(self).names().to_set() == old(self).names().to_set().insert(name@),
    {
        let ghost old_names = self.names();
        let key = name.to_string();
        match self.position(name) {
            Some(i) => {
                self.names.set(i, key);
                self.handlers.set(i, handler);
                proof {
                    assert(self.handlers@.len() == self.names@.len());
                    assert forall|a: int, b: int|
                        0 <= a < self.names().len() && 0 <= b < self.names().len() && a != b implies self.names()[a]
                            != self.names()[b] by {
                        assert(self.names()[a] == old_names.update(i as int, name@)[a]);
                        assert(self.names()[b] == old_names.update(i as int, name@)[b]);
                    }
                    assert(self.names() =~= old_names.update(i as int, name@));
                    assert(self.names().to_set() =~= old_names.to_set().insert(name@)) by {
                        assert forall|x: Seq<char>| self.names().to_set().contains(x) implies old_names.to_set().insert(name@).contains(x) by {
                            let k = choose|k: int| 0 <= k < self.names().len() && self.names()[k] == x;
                            if k != i {
                                assert(old_names[k] == x);
                            }
                        }
                        assert forall|x: Seq<char>| old_names.to_set().insert(name@).contains(x) implies self.names().to_set().contains(x) by {
                            if x != name@ {
                                let k = choose|k: int| 0 <= k < old_names.len() && old_names[k] == x;
                                assert(self.names()[k] == x);
                            } else {
                                assert(self.names()[i as int] == x);
                            }
                        }
                    }
                }
            },
            None => {
                self.names.push(key);
                self.handlers.push(handler);
                proof {
                    assert(self.handlers@.len() == self.names@.len());
                    assert forall|a: int, b: int|
                        0 <= a < self.names().len() && 0 <= b < self.names().len() && a != b implies self.names()[a]
                            != self.names()[b] by {
                        assert(self.names()[a] == old_names.push(name@)[a]);
                        assert(self.names()[b] == old_names.push(name@)[b]);
                        if a == old_names.len() {
                            assert(old_names[b] == self.names()[b]);
                        }
                        if b == old_names.len() {
                            assert(old_names[a] == self.names()[a]);
                        }
                    }
                    assert(self.names() =~= old_names.push(name@));
                    assert(self.names().to_set() =~= old_names.to_set().insert(name@)) by {
                        assert forall|x: Seq<char>| self.names().to_set().contains(x) implies old_names.to_set().insert(name@).contains(x) by {
                            let k = choose|k: int| 0 <= k < self.names().len() && self.names()[k] == x;
                            if k < old_names.len() {
                                assert(old_names[k] == x);
                            }
                        }
                        assert forall|x: Seq<char>| old_names.to_set().insert(name@).contains(x) implies self.names().to_set().contains(x) by {
                            if x != name@ {
                                let k = choose|k: int| 0 <= k < old_names.len() && old_names[k] == x;
                                assert(self.names()[k] == x);
                            } else {
                                assert(self.names()[old_names.len() as int] == x);
                            }
                        }
                    }
                }
            },
        }
    }

    /// The handler registered under `name`.
    pub fn get(&self, name: &str) -> (r: Option<&H>)
        requires
            self.wf(),
        ensures
            r is Some <==> self.names().contains(name@),
    {
        match self.position(name) {
            Some(i) => Some(&self.handlers[i]),
            None => None,
        }
    }

    /// Whether a command is registered under `name`.
    pub fn has(&self, name: &str) -> (r: bool)
        ensures
            r == self.names().contains(name@),
    {
        self.position(name).is_some()
    }

    /// Runs the command registered under `name` with `args`; an unknown
    /// name is an error and no handler runs.
    pub fn execute(&self, name: &str, args: &[String]) -> (r: Result<String, DispatchError>)
        requires
            self.wf(),
        ensures
            !self.names().contains(name@) <==> r matches Err(DispatchError::UnknownCommand(n)),
            r matches Err(DispatchError::UnknownCommand(n)) ==> n@ == name@,
    {
        match self.get(name) {
            Some(handler) => match handler.execute(args) {
                Ok(out) => Ok(out),
                Err(msg) => Err(DispatchError::Failed(msg)),
            },
            None => Err(DispatchError::UnknownCommand(name.to_string())),
        }
    }

    /// The registered names, each once.
    pub fn list_commands(&self) -> (r: Vec<&str>)
        ensures
            r@.map_values(|s: &str| s@) == self.names(),
    {
        let mut r: Vec<&str> = Vec::new();
        let mut i: usize = 0;
        while i < self.names.len()
            invariant
                i <= self.names@.len(),
                r@.len() == i,
                forall|k: int| 0 <= k < i ==> (#[trigger] r@[k])@ == self.names()[k],
            decreases self.names.len() - i,
        {
            r.push(self.names[i].as_str());
            i += 1;
        }
        assert(r@.map_values(|s: &str| s@) =~= self.names());
        r
    }
}

impl<H: CommandHandler> Default for CommandDispatcher<H> {
    fn default() -> (r: Self)
        ensures
            r.wf(),
            r.names().len() == 0,
    {
        CommandDispatcher::new()
    }
}

// ---------------------------------------------------------------------------
// Tool wrappers
// ---------------------------------------------------------------------------

/// The wrappers stored under a key (none when the key is absent).
pub open spec fn wrappers_under(e: Seq<(Seq<char>, Seq<WrapperView>)>, k: Seq<char>) -> Seq<WrapperView> {
    match find(e, k) {
        Some(l) => l,
        None => seq![],
    }
}

/// The wrappers of a list by their views.
pub open spec fn wrapper_views(l: Seq<ToolWrapperDef>) -> Seq<WrapperView> {
    l.map_values(|w: ToolWrapperDef| w@)
}

/// Tool wrappers by the name of the tool they wrap (`*`: every tool).
pub struct ToolWrapperRegistry {
    keys: Vec<String>,
    lists: Vec<Vec<ToolWrapperDef>>,
}

impl ToolWrapperRegistry {
    /// The wrappers registered under each key, in registration order.
    pub closed spec fn entries(&self) -> Seq<(Seq<char>, Seq<WrapperView>)> {
        Seq::new(
            self.keys@.len(),
            |i: int| (self.keys@[i]@, wrapper_views(self.lists@[i]@)),
        )
    }

    /// Keys are unique and each has its list.
    pub closed spec fn wf(&self) -> bool {
        self.keys@.len() == self.lists@.len() && keys_unique(self.entries())
    }

    /// A registry without wrappers.
    pub fn new() -> (r: Self)
        ensures
            r.wf(),
            r.entries().len() == 0,
    {
        let r = ToolWrapperRegistry { keys: Vec::new(), lists: Vec::new() };
        assert(r.entries() =~= Seq::<(Seq<char>, Seq<WrapperView>)>::empty());
        r
    }

    fn position(&self, key: &str) -> (r: Option<usize>)
        requires
            self.wf(),
        ensures
            match r {
                Some(i) => i < self.entries().len() && self.entries()[i as int].0 == key@,
                None => forall|i: int| 0 <= i < self.entries().len() ==> (#[trigger] self.entries()[i]).0 != key@,
            },
    {
        let mut i: usize = 0;
        while i < self.keys.len()
            invariant
                self.wf(),
                i <= self.keys@.len(),
                forall|j: int| 0 <= j < i ==> (#[trigger] self.entries()[j]).0 != key@,
            decreases self.keys.len() - i,
        {
            if crate::text::str_eq(self.keys[i].as_str(), key) {
                return Some(i);
            }
            i += 1;
        }
        None
    }

    /// Adds a wrapper after those already registered for its tool.
    pub fn register(&mut self, wrapper: ToolWrapperDef)
        requires
            old(self).wf(),
        ensures
            final(self).wf(),
            forall|k: Seq<char>| #[trigger] wrappers_under(final(self).entries(), k) == if k == wrapper.tool_name@ {
                wrappers_under(old(self).entries(), k).push(wrapper@)
            } else {
                wrappers_under(old(self).entries(), k)
            },
    {
        let ghost old_e = self.entries();
        let ghost wv = wrapper@;
        let key = wrapper.tool_name.clone();
        match self.position(key.as_str()) {
            Some(i) => {
                let mut l = self.lists.remove(i);
                let ghost old_l = wrapper_views(l@);
                l.push(wrapper);
                assert(wrapper_views(l@) =~= old_l.push(wv));
                self.lists.insert(i, l);
                proof {
                    let e = (key@, old_l.push(wv));
                    assert(self.entries() =~= old_e.update(i as int, e));
                    lemma_find_at(old_e, i as int);
                    assert forall|k: Seq<char>| #[trigger] wrappers_under(self.entries(), k) == if k == wv.tool_name {
                        wrappers_under(old_e, k).push(wv)
                    } else {
                        wrappers_under(old_e, k)
                    } by {
                        lemma_find_update(old_e, e, i as int, k);
                    }
                    lemma_find_update(old_e, e, i as int, key@);
                }
            },
            None => {
                let mut l: Vec<ToolWrapperDef> = Vec::new();
                l.push(wrapper);
                assert(wrapper_views(l@) =~= seq![wv]);
                self.keys.push(key);
                self.lists.push(l);
                proof {
                    let n = old_e.len() as int;
                    let e = (wv.tool_name, seq![wv]);
                    assert(self.entries() =~= old_e.insert(n, e));
                    let t = old_e.insert(n, e);
                    assert forall|a: int, b: int| 0 <= a < t.len() && 0 <= b < t.len() && a != b implies (
                    #[trigger] t[a]).0 != (#[trigger] t[b]).0 by {
                        if a < n && b < n {
                            assert(t[a] == old_e[a] && t[b] == old_e[b]);
                        } else if a < n {
                            assert(t[a] == old_e[a]);
                        } else if b < n {
                            assert(t[b] == old_e[b]);
                        }
                    }
                    assert(find(old_e, wv.tool_name) is None);
                    assert(Seq::<WrapperView>::empty().push(wv) =~= seq![wv]);
                    assert forall|k: Seq<char>| #[trigger] wrappers_under(self.entries(), k) == if k == wv.tool_name {
                        wrappers_under(old_e, k).push(wv)
                    } else {
                        wrappers_under(old_e, k)
                    } by {
                        lemma_find_insert(old_e, e, n, k);
                    }
                }
            },
        }
    }

    /// The wrappers that apply to a tool: those registered for every tool
    /// (`*`) first, then those registered for it.
    pub fn get_wrappers(&self, tool_name: &str) -> (r: Vec<&ToolWrapperDef>)
        requires
            self.wf(),
        ensures
            r@.map_values(|w: &ToolWrapperDef| w@) == wrappers_under(self.entries(), "*"@)
                + wrappers_under(self.entries(), tool_name@),
    {
        let mut r: Vec<&ToolWrapperDef> = Vec::new();
        let ghost e = self.entries();
        proof {
            reveal_strlit("*");
        }
        match self.position("*") {
            Some(i) => {
                proof {
                    lemma_find_at(e, i as int);
                }
                let l = &self.lists[i];
                let mut j: usize = 0;
                while j < l.len()
                    invariant
                        j <= l@.len(),
                        r@.map_values(|w: &ToolWrapperDef| w@) == wrapper_views(l@).take(j as int),
                    decreases l.len() - j,
                {
                    let ghost before = r@.map_values(|w: &ToolWrapperDef| w@);
                    r.push(&l[j]);
                    assert(r@.map_values(|w: &ToolWrapperDef| w@) =~= before.push(l@[j as int]@));
                    assert(wrapper_views(l@).take(j + 1) =~= wrapper_views(l@).take(j as int).push(l@[j as int]@));
                    assert(r@.map_values(|w: &ToolWrapperDef| w@) =~= wrapper_views(l@).take(j + 1));
                    j += 1;
                }
                assert(wrapper_views(l@).take(l@.len() as int) =~= wrapper_views(l@));
            },
            None => {
                assert(r@.map_values(|w: &ToolWrapperDef| w@) =~= Seq::<WrapperView>::empty());
            },
        }
        let ghost head = r@.map_values(|w: &ToolWrapperDef| w@);
        match self.position(tool_name) {
            Some(i) => {
                proof {
                    lemma_find_at(e, i as int);
                }
                let l = &self.lists[i];
                let mut j: usize = 0;
                while j < l.len()
                    invariant
                        j <= l@.len(),
                        r@.map_values(|w: &ToolWrapperDef| w@) == head + wrapper_views(l@).take(j as int),
                    decreases l.len() - j,
                {
                    let ghost before = r@.map_values(|w: &ToolWrapperDef| w@);
                    r.push(&l[j]);
                    assert(r@.map_values(|w: &ToolWrapperDef| w@) =~= before.push(l@[j as int]@));
                    assert(wrapper_views(l@).take(j + 1) =~= wrapper_views(l@).take(j as int).push(l@[j as int]@));
                    assert(r@.map_values(|w: &ToolWrapperDef| w@) =~= head + wrapper_views(l@).take(j + 1));
                    j += 1;
                }
                assert(wrapper_views(l@).take(l@.len() as int) =~= wrapper_views(l@));
            },
            None => {
                assert(head + Seq::<WrapperView>::empty() =~= head);
            },
        }
        r
    }

    /// Whether wrappers are registered for every tool or for this one.
    pub fn has_wrappers(&self, tool_name: &str) -> (r: bool)
        requires
            self.wf(),
        ensures
            r == (has_key(self.entries(), "*"@) || has_key(self.entries(), tool_name@)),
    {
        proof {
            reveal_strlit("*");
        }
        let g = self.position("*").is_some();
        let s = self.position(tool_name).is_some();
        g || s
    }

    /// Removes the wrappers registered for a tool.
    pub fn unregister(&mut self, tool_name: &str)
        requires
            old(self).wf(),
        ensures
            final(self).wf(),
            forall|k: Seq<char>| #[trigger] find(final(self).entries(), k) == if k == tool_name@ {
                None
            } else {
                find(old(self).entries(), k)
            },
    {
        let ghost old_e = self.entries();
        match self.position(tool_name) {
            Some(i) => {
                self.keys.remove(i);
                self.lists.remove(i);
                proof {
                    assert(self.entries() =~= old_e.remove(i as int));
                    crate::order::lemma_find_remove(old_e, i as int);
                }
            },
            None => {},
        }
    }

    /// Removes every wrapper.
    pub fn clear(&mut self)
        ensures
            final(self).wf(),
            final(self).entries().len() == 0,
    {
        self.keys = Vec::new();
        self.lists = Vec::new();
        assert(self.entries() =~= Seq::<(Seq<char>, Seq<WrapperView>)>::empty());
    }
}

impl Default for ToolWrapperRegistry {
    fn default() -> (r: Self)
        ensures
            r.wf(),
            r.entries().len() == 0,
    {
        ToolWrapperRegistry::new()
    }
}

// ---------------------------------------------------------------------------
// Extension tools
// ---------------------------------------------------------------------------

/// A tool as an extension's manifest declares it (its parameter schema is
/// kept by the caller).
pub struct ExtensionToolSpec {
    pub name: String,
    pub description: String,
    pub executor: ExecutorType,
    pub command: Option<String>,
    pub binary: Option<String>,
}

/// How a usable extension tool runs.
#[derive(Debug, Clone, PartialEq, Eq)]
pub enum RuntimeExecutor {
    Shell { command: String },
    /// The program, inside the extension's directory.
    Binary { path: String },
    /// The module, inside the extension's directory.
    Wasm { path: String },
}

/// A usable extension tool: its registered name and description, the
/// name the extension declared, and how it runs.
#[derive(Debug, Clone, PartialEq, Eq)]
pub struct RuntimeToolPlan {
    pub tool_name: String,
    pub description: String,
    pub declared_tool_name: String,
    pub executor: RuntimeExecutor,
}

/// A present and non-blank string.
pub open spec fn usable(o: Option<String>) -> Option<Seq<char>> {
    match o {
        Some(c) => if trim_ws(c@).len() > 0 {
            Some(c@)
        } else {
            None
        },
        None => None,
    }
}

/// The view of an executor.
pub open spec fn executor_view(e: RuntimeExecutor) -> (ExecutorType, Seq<char>) {
    match e {
        RuntimeExecutor::Shell { command } => (ExecutorType::Shell, command@),
        RuntimeExecutor::Binary { path } => (ExecutorType::Binary, path@),
        RuntimeExecutor::Wasm { path } => (ExecutorType::Wasm, path@),
    }
}

/// How a declared tool runs: a shell tool needs a command, a binary or
/// WASM tool a file (resolved inside the extension's directory).
pub open spec fn executor_plan(ext_path: Seq<char>, tool: ExtensionToolSpec) -> Option<(ExecutorType, Seq<char>)> {
    match tool.executor {
        ExecutorType::Shell => match usable(tool.command) {
            Some(c) => Some((ExecutorType::Shell, c)),
            None => None,
        },
        ExecutorType::Binary => match usable(tool.binary) {
            Some(p) => Some((ExecutorType::Binary, crate::paths::path_join(ext_path, p))),
            None => None,
        },
        ExecutorType::Wasm => match usable(tool.binary) {
            Some(p) => Some((ExecutorType::Wasm, crate::paths::path_join(ext_path, p))),
            None => None,
        },
    }
}

/// The registered name of an extension tool: `ext_`, the slug of the
/// extension's name, `_`, the slug of the tool's name.
pub open spec fn runtime_tool_name(ext_name: Seq<char>, tool_name: Seq<char>) -> Seq<char> {
    "ext_"@ + crate::skills::slug_or(ext_name, "extension"@) + "_"@ + crate::skills::slug_or(
        tool_name,
        "extension"@,
    )
}

/// The description of an extension tool: its own, or one naming it and
/// its extension when its own is blank.
pub open spec fn runtime_description(ext_name: Seq<char>, tool: ExtensionToolSpec) -> Seq<char> {
    if trim_ws(tool.description@).len() == 0 {
        "Extension tool '"@ + tool.name@ + "' from '"@ + ext_name + "'"@
    } else {
        tool.description@
    }
}

fn usable_exec(o: &Option<String>) -> (r: Option<String>)
    ensures
        crate::paths::opt_str_view(r) == usable(*o),
{
    match o {
        Some(c) => {
            let cc = crate::text::chars_of(c.as_str());
            if crate::text::trim_exec(cc.as_slice()).len() > 0 {
                Some(c.clone())
            } else {
                None
            }
        },
        None => None,
    }
}

/// The runtime form of a tool declared by the extension named `ext_name`
/// in directory `ext_path`; `None` for a tool that cannot run (no command
/// or file given).
pub fn plan_runtime_tool(ext_name: &str, ext_path: &str, tool: &ExtensionToolSpec) -> (r: Option<
    RuntimeToolPlan,
>)
    ensures
        match r {
            Some(p) => executor_plan(ext_path@, *tool) == Some(executor_view(p.executor))
                && p.tool_name@ == runtime_tool_name(ext_name@, tool.name@) && p.description@
                == runtime_description(ext_name@, *tool) && p.declared_tool_name@ == tool.name@,
            None => executor_plan(ext_path@, *tool) is None,
        },
{
    let executor = match tool.executor {
        ExecutorType::Shell => match usable_exec(&tool.command) {
            Some(c) => RuntimeExecutor::Shell { command: c },
            None => {
                return None;
            },
        },
        ExecutorType::Binary => match usable_exec(&tool.binary) {
            Some(p) => RuntimeExecutor::Binary { path: crate::paths::join_path(ext_path, p.as_str()) },
            None => {
                return None;
            },
        },
        ExecutorType::Wasm => match usable_exec(&tool.binary) {
            Some(p) => RuntimeExecutor::Wasm { path: crate::paths::join_path(ext_path, p.as_str()) },
            None => {
                return None;
            },
        },
    };
    let mut n: Vec<char> = Vec::new();
    extend_str(&mut n, "ext_");
    let a = crate::skills::slugify_or(ext_name, "extension");
    extend_str(&mut n, a.as_str());
    extend_str(&mut n, "_");
    let b = crate::skills::slugify_or(tool.name.as_str(), "extension");
    extend_str(&mut n, b.as_str());
    proof {
        reveal_strlit("extension");
    }
    let dc = crate::text::chars_of(tool.description.as_str());
    let description = if crate::text::trim_exec(dc.as_slice()).len() == 0 {
        let mut d: Vec<char> = Vec::new();
        extend_str(&mut d, "Extension tool '");
        extend_str(&mut d, tool.name.as_str());
        extend_str(&mut d, "' from '");
        extend_str(&mut d, ext_name);
        extend_str(&mut d, "'");
        string_of(d.as_slice())
    } else {
        tool.description.clone()
    };
    Some(
        RuntimeToolPlan {
            tool_name: string_of(n.as_slice()),
            description,
            declared_tool_name: tool.name.clone(),
            executor,
        },
    )
}

/// Whether a command name may name a script: no path separator and no
/// `..`.
pub open spec fn safe_command_name(name: Seq<char>) -> bool {
    !name.contains('/') && !name.contains('\\') && !crate::text::contains_sub(name, ".."@)
}

/// Whether a command name is safe to turn into a script path.
pub fn is_safe_command_name(name: &str) -> (r: bool)
    ensures
        r == safe_command_name(name@),
{
    let c = crate::text::chars_of(name);
    let slash = crate::text::find_char_exec(c.as_slice(), '/');
    let backslash = crate::text::find_char_exec(c.as_slice(), '\\');
    let dots: Vec<char> = vec!['.', '.'];
    proof {
        reveal_strlit("..");
        assert(dots@ =~= ".."@);
        crate::text::lemma_find_char_contains(c@, '/');
        crate::text::lemma_find_char_contains(c@, '\\');
    }
    slash.is_none() && backslash.is_none() && !crate::text::contains_chars(c.as_slice(), dots.as_slice())
}

// ---------------------------------------------------------------------------
// Discovery and wrapper hooks
// ---------------------------------------------------------------------------

/// Where extensions are looked for: `.pi/agent/extensions` under the home
/// directory (when there is one), then `.pi/extensions` under the working
/// directory.
pub open spec fn extension_roots_of(home: Option<Seq<char>>, cwd: Seq<char>) -> Seq<Seq<char>> {
    let project = crate::paths::path_join(crate::paths::path_join(cwd, ".pi"@), "extensions"@);
    match home {
        Some(h) => seq![
            crate::paths::path_join(crate::paths::path_join(crate::paths::path_join(h, ".pi"@), "agent"@), "extensions"@),
            project,
        ],
        None => seq![project],
    }
}

/// The directories extensions are looked for in, in order.
pub fn extension_roots(home: Option<&str>, cwd: &str) -> (r: Vec<String>)
    ensures
        crate::order::views_of(r@) == extension_roots_of(
            match home {
                Some(h) => Some(h@),
                None => None,
            },
            cwd@,
        ),
{
    let mut r: Vec<String> = Vec::new();
    if let Some(h) = home {
        let a = crate::paths::join_path(h, ".pi");
        let b = crate::paths::join_path(a.as_str(), "agent");
        r.push(crate::paths::join_path(b.as_str(), "extensions"));
    }
    let p = crate::paths::join_path(cwd, ".pi");
    r.push(crate::paths::join_path(p.as_str(), "extensions"));
    assert(crate::order::views_of(r@) =~= extension_roots_of(
        match home {
            Some(h) => Some(h@),
            None => None,
        },
        cwd@,
    ));
    r
}

/// The script a wrapper runs: its before hook, else its after hook; none
/// when it has neither.
pub fn wrapper_hook_path(wrapper: &ToolWrapperDef) -> (r: Option<String>)
    ensures
        crate::paths::opt_str_view(r) == match wrapper@.before_hook {
            Some(b) => Some(b),
            None => wrapper@.after_hook,
        },
{
    match &wrapper.before_hook {
        Some(b) => Some(b.as_str().to_string()),
        None => match &wrapper.after_hook {
            Some(a) => Some(a.as_str().to_string()),
            None => None,
        },
    }
}

/// What a wrapper hook's reply decides: whether the tool still runs (yes
/// unless the reply says otherwise), and the result to use in its place
/// (its output, empty when it gave none, and whether it is an error).
pub fn hook_outcome(allow_continue: Option<bool>, result: Option<(bool, Option<String>)>) -> (r: (bool, Option<(String, bool)>))
    ensures
        r.0 == match allow_continue {
            Some(b) => b,
            None => true,
        },
        match result {
            None => r.1 is None,
            Some((success, output)) => r.1 matches Some((text, is_error)) && is_error == !success && text@
                == match output {
                Some(o) => o@,
                None => Seq::<char>::empty(),
            },
        },
{
    let should_continue = match allow_continue {
        Some(b) => b,
        None => true,
    };
    let replaced = match result {
        None => None,
        Some((success, output)) => Some(
            (
                match output {
                    Some(o) => o,
                    None => String::new(),
                },
                !success,
            ),
        ),
    };
    (should_continue, replaced)
}

} // verus!
