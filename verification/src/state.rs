//! Engine-wide state: the shell option flags and the bookkeeping of active
//! runners and of the virtual-command switch, kept as an explicit value
//! rather than process-global state.
use vstd::prelude::*;
use crate::text::str_eq;

verus! {

/// The shell option flags, all off by default.
#[derive(Debug, Clone, Copy, PartialEq, Eq, Structural)]
pub struct ShellSettings {
    /// Stop at the first failing command.
    pub errexit: bool,
    /// Print commands before running them.
    pub verbose: bool,
    /// Trace commands as they run.
    pub xtrace: bool,
    /// A pipeline fails if any stage fails.
    pub pipefail: bool,
    /// Reading an unset variable is an error.
    pub nounset: bool,
    /// No filename globbing.
    pub noglob: bool,
    /// Export every assignment.
    pub allexport: bool,
}

/// The settings with every flag off.
pub open spec fn default_settings() -> ShellSettings {
    ShellSettings {
        errexit: false,
        verbose: false,
        xtrace: false,
        pipefail: false,
        nounset: false,
        noglob: false,
        allexport: false,
    }
}

/// What setting one named option to `value` does: short flags and long names
/// address their field, an unknown name changes nothing.
pub open spec fn spec_set(s: ShellSettings, option: Seq<char>, value: bool) -> ShellSettings {
    if option == "e"@ || option == "errexit"@ {
        ShellSettings { errexit: value, ..s }
    } else if option == "v"@ || option == "verbose"@ {
        ShellSettings { verbose: value, ..s }
    } else if option == "x"@ || option == "xtrace"@ {
        ShellSettings { xtrace: value, ..s }
    } else if option == "u"@ || option == "nounset"@ {
        ShellSettings { nounset: value, ..s }
    } else if option == "f"@ || option == "noglob"@ {
        ShellSettings { noglob: value, ..s }
    } else if option == "a"@ || option == "allexport"@ {
        ShellSettings { allexport: value, ..s }
    } else if option == "o pipefail"@ || option == "pipefail"@ {
        ShellSettings { pipefail: value, ..s }
    } else {
        s
    }
}

impl Default for ShellSettings {
    /// The default settings: every flag off.
    fn default() -> (s: ShellSettings)
        ensures
            s == default_settings(),
    {
        ShellSettings::new()
    }
}

impl ShellSettings {
    /// The settings with every flag off.
    pub fn new() -> (s: ShellSettings)
        ensures
            s == default_settings(),
    {
        ShellSettings {
            errexit: false,
            verbose: false,
            xtrace: false,
            pipefail: false,
            nounset: false,
            noglob: false,
            allexport: false,
        }
    }

    /// Puts every flag back to its default.
    pub fn reset(&mut self)
        ensures
            *final(self) == default_settings(),
    {
        *self = ShellSettings::new();
    }

    /// Sets one option by its short flag or long name; unknown names change
    /// nothing.
    pub fn set(&mut self, option: &str, value: bool)
        ensures
            *final(self) == spec_set(*old(self), option@, value),
    {
        if str_eq(option, "e") || str_eq(option, "errexit") {
            self.errexit = value;
        } else if str_eq(option, "v") || str_eq(option, "verbose") {
            self.verbose = value;
        } else if str_eq(option, "x") || str_eq(option, "xtrace") {
            self.xtrace = value;
        } else if str_eq(option, "u") || str_eq(option, "nounset") {
            self.nounset = value;
        } else if str_eq(option, "f") || str_eq(option, "noglob") {
            self.noglob = value;
        } else if str_eq(option, "a") || str_eq(option, "allexport") {
            self.allexport = value;
        } else if str_eq(option, "o pipefail") || str_eq(option, "pipefail") {
            self.pipefail = value;
        }
    }

    /// Turns one option on.
    pub fn enable(&mut self, option: &str)
        ensures
            *final(self) == spec_set(*old(self), option@, true),
    {
        self.set(option, true);
    }

    /// Turns one option off.
    pub fn disable(&mut self, option: &str)
        ensures
            *final(self) == spec_set(*old(self), option@, false),
    {
        self.set(option, false);
    }
}

/// The sequence with every occurrence of `id` removed.
pub open spec fn without(s: Seq<u64>, id: u64) -> Seq<u64>
    decreases s.len(),
{
    if s.len() == 0 {
        Seq::empty()
    } else if s.first() == id {
        without(s.drop_first(), id)
    } else {
        seq![s.first()] + without(s.drop_first(), id)
    }
}

/// The engine's bookkeeping: shell settings, the identifiers of running
/// stages, the virtual-command switch and the directory the engine started
/// in.
pub struct GlobalState {
    shell_settings: ShellSettings,
    active_runners: Vec<u64>,
    next_runner_id: u64,
    signal_handlers_installed: bool,
    virtual_commands_enabled: bool,
    initial_cwd: Option<String>,
}

impl Default for GlobalState {
    /// A fresh state with no starting directory recorded.
    fn default() -> (s: GlobalState)
        ensures
            s.settings() == default_settings(),
            s.runners() == Seq::<u64>::empty(),
            s.virtual_enabled(),
            !s.handlers_installed(),
            s.initial_dir() is None,
            s.next_id() == 1u64,
    {
        GlobalState::new(None)
    }
}

impl GlobalState {
    /// The runner identifiers currently registered.
    pub closed spec fn runners(&self) -> Seq<u64> {
        self.active_runners@
    }

    /// The current shell settings.
    pub closed spec fn settings(&self) -> ShellSettings {
        self.shell_settings
    }

    /// Whether virtual commands are dispatched.
    pub closed spec fn virtual_enabled(&self) -> bool {
        self.virtual_commands_enabled
    }

    /// The identifier the next registration will hand out.
    pub closed spec fn next_id(&self) -> u64 {
        self.next_runner_id
    }

    /// Whether the signal handlers have been installed.
    pub closed spec fn handlers_installed(&self) -> bool {
        self.signal_handlers_installed
    }

    /// A fresh state: default settings, no runners, virtual commands on. The
    /// starting directory is handed in by the caller, which alone can read
    /// it.
    pub fn new(initial_cwd: Option<String>) -> (s: GlobalState)
        ensures
            s.settings() == default_settings(),
            s.runners() == Seq::<u64>::empty(),
            s.virtual_enabled(),
            !s.handlers_installed(),
            s.next_id() == 1u64,
            s.initial_dir() == (match initial_cwd {
                Some(c) => Some(c@),
                None => None::<Seq<char>>,
            }),
    {
        GlobalState {
            shell_settings: ShellSettings::new(),
            active_runners: Vec::new(),
            next_runner_id: 1,
            signal_handlers_installed: false,
            virtual_commands_enabled: true,
            initial_cwd,
        }
    }

    /// The current shell settings.
    pub fn get_shell_settings(&self) -> (s: ShellSettings)
        ensures
            s == self.settings(),
    {
        self.shell_settings.clone()
    }

    /// Replaces the shell settings.
    pub fn set_shell_settings(&mut self, settings: ShellSettings)
        ensures
            final(self).settings() == settings,
            final(self).runners() == old(self).runners(),
            final(self).virtual_enabled() == old(self).virtual_enabled(),
            final(self).handlers_installed() == old(self).handlers_installed(),
            final(self).initial_dir() == old(self).initial_dir(),
            final(self).next_id() == old(self).next_id(),
    {
        self.shell_settings = settings;
    }

    /// Turns one shell option on.
    pub fn enable_shell_option(&mut self, option: &str)
        ensures
            final(self).settings() == spec_set(old(self).settings(), option@, true),
            final(self).runners() == old(self).runners(),
            final(self).virtual_enabled() == old(self).virtual_enabled(),
            final(self).handlers_installed() == old(self).handlers_installed(),
            final(self).initial_dir() == old(self).initial_dir(),
            final(self).next_id() == old(self).next_id(),
    {
        self.shell_settings.enable(option);
    }

    /// Turns one shell option off.
    pub fn disable_shell_option(&mut self, option: &str)
        ensures
            final(self).settings() == spec_set(old(self).settings(), option@, false),
            final(self).runners() == old(self).runners(),
            final(self).virtual_enabled() == old(self).virtual_enabled(),
            final(self).handlers_installed() == old(self).handlers_installed(),
            final(self).initial_dir() == old(self).initial_dir(),
            final(self).next_id() == old(self).next_id(),
    {
        self.shell_settings.disable(option);
    }

    /// Hands out the next runner identifier and records it as active. The
    /// counter wraps around at its limit.
    pub fn register_runner(&mut self) -> (id: u64)
        ensures
            id == old(self).next_id(),
            final(self).runners() == old(self).runners().push(id),
            final(self).next_id() == (if old(self).next_id() == u64::MAX {
                0u64
            } else {
                (old(self).next_id() + 1) as u64
            }),
            final(self).settings() == old(self).settings(),
            final(self).virtual_enabled() == old(self).virtual_enabled(),
            final(self).handlers_installed() == old(self).handlers_installed(),
            final(self).initial_dir() == old(self).initial_dir(),
    {
        let id = self.next_runner_id;
        self.next_runner_id = if id == u64::MAX {
            0
        } else {
            id + 1
        };
        self.active_runners.push(id);
        id
    }

    /// Removes a runner from the active set.
    #[verifier::loop_isolation(false)]
    pub fn unregister_runner(&mut self, id: u64)
        ensures
            final(self).runners() == without(old(self).runners(), id),
            final(self).settings() == old(self).settings(),
            final(self).virtual_enabled() == old(self).virtual_enabled(),
            final(self).handlers_installed() == old(self).handlers_installed(),
            final(self).initial_dir() == old(self).initial_dir(),
            final(self).next_id() == old(self).next_id(),
    {
        let ghost orig = self.active_runners@;
        let mut kept: Vec<u64> = Vec::new();
        proof {
            assert(orig.skip(0) =~= orig);
            assert(kept@ + without(orig, id) =~= without(orig, id));
        }
        let mut i: usize = 0;
        while i < self.active_runners.len()
            invariant
                0 <= i <= orig.len(),
                self.active_runners@ == orig,
                without(orig, id) == kept@ + without(orig.skip(i as int), id),
            decreases orig.len() - i,
        {
            let ghost suffix = orig.skip(i as int);
            proof {
                assert(suffix.first() == orig[i as int]);
                assert(suffix.drop_first() =~= orig.skip(i as int + 1));
            }
            let x = self.active_runners[i];
            if x != id {
                let ghost pre = kept@;
                kept.push(x);
                proof {
                    assert(kept@ =~= pre + seq![x]);
                }
            }
            i += 1;
        }
        proof {
            assert(orig.skip(orig.len() as int) =~= Seq::<u64>::empty());
            assert(without(orig, id) =~= kept@);
        }
        self.active_runners = kept;
    }

    /// How many runners are active.
    pub fn active_runner_count(&self) -> (n: usize)
        ensures
            n == self.runners().len(),
    {
        self.active_runners.len()
    }

    /// Whether the signal handlers have been installed.
    pub fn are_signal_handlers_installed(&self) -> (r: bool)
        ensures
            r == self.handlers_installed(),
    {
        self.signal_handlers_installed
    }

    /// Records whether the signal handlers are installed.
    pub fn set_signal_handlers_installed(&mut self, installed: bool)
        ensures
            final(self).handlers_installed() == installed,
            final(self).runners() == old(self).runners(),
            final(self).settings() == old(self).settings(),
            final(self).virtual_enabled() == old(self).virtual_enabled(),
            final(self).initial_dir() == old(self).initial_dir(),
            final(self).next_id() == old(self).next_id(),
    {
        self.signal_handlers_installed = installed;
    }

    /// Whether virtual commands are dispatched.
    pub fn are_virtual_commands_enabled(&self) -> (r: bool)
        ensures
            r == self.virtual_enabled(),
    {
        self.virtual_commands_enabled
    }

    /// Turns virtual dispatch on.
    pub fn enable_virtual_commands(&mut self)
        ensures
            final(self).virtual_enabled(),
            final(self).runners() == old(self).runners(),
            final(self).settings() == old(self).settings(),
            final(self).handlers_installed() == old(self).handlers_installed(),
            final(self).initial_dir() == old(self).initial_dir(),
            final(self).next_id() == old(self).next_id(),
    {
        self.virtual_commands_enabled = true;
    }

    /// Turns virtual dispatch off: every stage then spawns a process.
    pub fn disable_virtual_commands(&mut self)
        ensures
            !final(self).virtual_enabled(),
            final(self).runners() == old(self).runners(),
            final(self).settings() == old(self).settings(),
            final(self).handlers_installed() == old(self).handlers_installed(),
            final(self).initial_dir() == old(self).initial_dir(),
            final(self).next_id() == old(self).next_id(),
    {
        self.virtual_commands_enabled = false;
    }

    /// The directory the engine started in, if one was recorded.
    pub closed spec fn initial_dir(&self) -> Option<Seq<char>> {
        match self.initial_cwd {
            Some(c) => Some(c@),
            None => None,
        }
    }

    /// The directory the engine started in, if its creator recorded one.
    pub fn get_initial_cwd(&self) -> (r: Option<String>)
        ensures
            match r {
                Some(s) => self.initial_dir() == Some(s@),
                None => self.initial_dir() is None,
            },
    {
        match &self.initial_cwd {
            Some(s) => Some(s.clone()),
            None => None,
        }
    }

    /// Back to the fresh state: default settings, no runners, virtual
    /// dispatch on. The signal-handler mark is managed separately and stays.
    pub fn reset(&mut self)
        ensures
            final(self).settings() == default_settings(),
            final(self).runners() == Seq::<u64>::empty(),
            final(self).virtual_enabled(),
            final(self).handlers_installed() == old(self).handlers_installed(),
            final(self).initial_dir() == old(self).initial_dir(),
            final(self).next_id() == old(self).next_id(),
    {
        self.shell_settings = ShellSettings::new();
        self.active_runners = Vec::new();
        self.virtual_commands_enabled = true;
    }
}

} // verus!
