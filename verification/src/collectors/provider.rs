//! Running outside commands through an injectable provider, and a scripted provider.
use crate::text::{chars_of, push_chars, push_str, string_of};
use vstd::prelude::*;

verus! {

/// What a command printed and whether it exited successfully.
pub struct CommandOutput {
    pub stdout: String,
    pub stderr: String,
    pub success: bool,
}

/// Plain model of a `CommandOutput`.
pub struct CommandOutputView {
    pub stdout: Seq<char>,
    pub stderr: Seq<char>,
    pub success: bool,
}

impl View for CommandOutput {
    type V = CommandOutputView;

    open spec fn view(&self) -> CommandOutputView {
        CommandOutputView { stdout: self.stdout@, stderr: self.stderr@, success: self.success }
    }
}

impl CommandOutput {
    pub fn new(stdout: String, stderr: String, success: bool) -> (r: Self)
        ensures
            r.stdout@ == stdout@,
            r.stderr@ == stderr@,
            r.success == success,
    {
        CommandOutput { stdout, stderr, success }
    }

    pub fn duplicate(&self) -> (r: Self)
        ensures
            r@ == self@,
    {
        CommandOutput {
            stdout: self.stdout.clone(),
            stderr: self.stderr.clone(),
            success: self.success,
        }
    }
}

/// The answer to running a command: its output, or why it could not be run.
pub open spec fn answer_view(r: Result<CommandOutput, String>) -> Result<CommandOutputView, Seq<char>> {
    match r {
        Ok(o) => Ok(o@),
        Err(e) => Err(e@),
    }
}

/// Views of a list of string slices.
pub open spec fn str_views(v: Seq<&str>) -> Seq<Seq<char>> {
    v.map_values(|a: &str| a@)
}

/// Runs outside commands. Implementations run real processes or give scripted answers.
pub trait CommandProvider {
    /// Whether `answer` is an answer this provider may give when asked to run `command`
    /// with `args`.
    spec fn answers(
        &self,
        command: Seq<char>,
        args: Seq<Seq<char>>,
        answer: Result<CommandOutputView, Seq<char>>,
    ) -> bool;

    /// Whether the host this provider runs commands on is a Linux system.
    spec fn on_linux(&self) -> bool;

    /// The command lines run so far, oldest first, each as the command and its arguments.
    spec fn ran(&self) -> Seq<(Seq<char>, Seq<Seq<char>>)>;

    /// Runs a command line: the answer is one the provider may give for it, the line is
    /// added to those run, and the provider answers as before.
    fn run(&mut self, command: &str, args: &[&str]) -> (r: Result<CommandOutput, String>)
        ensures
            old(self).answers(command@, str_views(args@), answer_view(r)),
            final(self).ran() == old(self).ran().push((command@, str_views(args@))),
            final(self).on_linux() == old(self).on_linux(),
            final(self).on_systemd() == old(self).on_systemd(),
            forall|c: Seq<char>, a: Seq<Seq<char>>, ans: Result<CommandOutputView, Seq<char>>|
                #[trigger] final(self).answers(c, a, ans) == old(self).answers(c, a, ans),
    ;

    fn is_linux(&self) -> (b: bool)
        ensures
            b == self.on_linux(),
    ;

    /// Whether the host this provider runs commands on runs systemd.
    spec fn on_systemd(&self) -> bool;

    fn has_systemd(&self) -> (b: bool)
        ensures
            b == self.on_systemd(),
    ;
}

/// Whether a provider answers and sees its host as another does: what running commands
/// leaves unchanged.
pub open spec fn same_host<P: CommandProvider>(a: P, b: P) -> bool {
    &&& b.on_linux() == a.on_linux()
    &&& b.on_systemd() == a.on_systemd()
    &&& forall|c: Seq<char>, args: Seq<Seq<char>>, ans: Result<CommandOutputView, Seq<char>>|
        #[trigger] b.answers(c, args, ans) == a.answers(c, args, ans)
}

/// Answering as another provider does is transitive.
pub proof fn lemma_same_host_trans<P: CommandProvider>(a: P, b: P, c: P)
    requires
        same_host(a, b),
        same_host(b, c),
    ensures
        same_host(a, c),
{
}

/// A command line as the provider records it: the command and its arguments.
pub open spec fn command_line(command: Seq<char>, args: Seq<Seq<char>>) -> (Seq<char>, Seq<Seq<char>>) {
    (command, args)
}

/// Whether a provider ran exactly `lines` after what it had run before, and answers as before.
pub open spec fn ran_lines<P: CommandProvider>(before: P, after: P, lines: Seq<(Seq<char>, Seq<Seq<char>>)>) -> bool {
    same_host(before, after) && after.ran() == before.ran() + lines
}

/// The command lines a provider ran after it was in state `before`.
pub open spec fn lines_since<P: CommandProvider>(before: P, after: P) -> Seq<(Seq<char>, Seq<Seq<char>>)> {
    after.ran().skip(before.ran().len() as int)
}

/// Lines added to the end of the record are what was run since.
pub proof fn lemma_lines_since<P: CommandProvider>(before: P, after: P, lines: Seq<(Seq<char>, Seq<Seq<char>>)>)
    requires
        same_host(before, after),
        after.ran() =~= before.ran() + lines,
    ensures
        ran_lines(before, after, lines_since(before, after)),
        lines_since(before, after) == lines,
{
    assert(after.ran().skip(before.ran().len() as int) =~= lines);
}

/// How a scripted provider answers one command line.
pub enum MockBehavior {
    Success(CommandOutput),
    MissingBinary,
    ExitFailure { exit_code: i32, stderr: String },
    Timeout,
}

/// Plain model of a `MockBehavior`.
pub enum MockBehaviorView {
    Success(CommandOutputView),
    MissingBinary,
    ExitFailure(Seq<char>),
    Timeout,
}

impl View for MockBehavior {
    type V = MockBehaviorView;

    open spec fn view(&self) -> MockBehaviorView {
        match self {
            MockBehavior::Success(o) => MockBehaviorView::Success(o@),
            MockBehavior::MissingBinary => MockBehaviorView::MissingBinary,
            MockBehavior::ExitFailure { exit_code, stderr } => MockBehaviorView::ExitFailure(
                stderr@,
            ),
            MockBehavior::Timeout => MockBehaviorView::Timeout,
        }
    }
}

/// The words of a command line joined by single spaces, as the scripted provider keys them:
/// the command, a space, then the arguments separated by spaces.
pub open spec fn join_args(args: Seq<Seq<char>>) -> Seq<char>
    decreases args.len(),
{
    if args.len() == 0 {
        Seq::empty()
    } else if args.len() == 1 {
        args[0]
    } else {
        join_args(args.drop_last()) + seq![' '] + args.last()
    }
}

pub open spec fn command_key(command: Seq<char>, args: Seq<Seq<char>>) -> Seq<char> {
    command + seq![' '] + join_args(args)
}

/// The answer a scripted provider gives for a behavior.
pub open spec fn behavior_answer(command: Seq<char>, b: MockBehaviorView) -> Result<
    CommandOutputView,
    Seq<char>,
> {
    match b {
        MockBehaviorView::Success(o) => Ok(o),
        MockBehaviorView::MissingBinary => Err("Binary missing: "@ + command),
        MockBehaviorView::ExitFailure(stderr) => Ok(
            CommandOutputView { stdout: Seq::empty(), stderr, success: false },
        ),
        MockBehaviorView::Timeout => Err("Command timed out: "@ + command),
    }
}

/// The behavior scripted for `key`: the latest entry for it wins.
pub open spec fn lookup_response(keys: Seq<Seq<char>>, behaviors: Seq<MockBehaviorView>, key: Seq<char>) -> Option<MockBehaviorView>
    decreases keys.len(),
{
    if keys.len() == 0 || behaviors.len() == 0 {
        None
    } else if keys.last() == key {
        Some(behaviors.last())
    } else {
        lookup_response(keys.drop_last(), behaviors.drop_last(), key)
    }
}

/// A provider that answers from a table of scripted responses keyed by command line.
pub struct MockProvider {
    keys: Vec<String>,
    behaviors: Vec<MockBehavior>,
    linux: bool,
    systemd: bool,
    lines_run: Ghost<Seq<(Seq<char>, Seq<Seq<char>>)>>,
}

impl MockProvider {
    pub closed spec fn key_views(&self) -> Seq<Seq<char>> {
        self.keys@.map_values(|k: String| k@)
    }

    pub closed spec fn behavior_views(&self) -> Seq<MockBehaviorView> {
        self.behaviors@.map_values(|b: MockBehavior| b@)
    }

    pub closed spec fn linux_host(&self) -> bool {
        self.linux
    }

    pub closed spec fn systemd_host(&self) -> bool {
        self.systemd
    }

    /// The behavior scripted for a command line, if any.
    pub closed spec fn response(&self, key: Seq<char>) -> Option<MockBehaviorView> {
        lookup_response(self.key_views(), self.behavior_views(), key)
    }

    /// Each key has one behavior.
    pub closed spec fn wf(&self) -> bool {
        self.keys@.len() == self.behaviors@.len()
    }

    /// The scripted table as a map from command line to behavior.
    pub open spec fn table(&self) -> Map<Seq<char>, MockBehaviorView> {
        Map::new(|k: Seq<char>| self.response(k) is Some, |k: Seq<char>| self.response(k)->0)
    }

    /// A provider with no scripted responses.
    pub fn new(linux: bool) -> (r: Self)
        ensures
            r.wf(),
            r.table() == Map::<Seq<char>, MockBehaviorView>::empty(),
            r.linux_host() == linux,
            r.systemd_host() == linux,
    {
        let r = MockProvider {
            keys: Vec::new(),
            behaviors: Vec::new(),
            linux,
            systemd: linux,
            lines_run: Ghost(Seq::empty()),
        };
        assert(r.table() =~= Map::<Seq<char>, MockBehaviorView>::empty());
        r
    }

    /// Scripts the behavior for one command line, replacing any earlier one for it.
    pub fn insert(&mut self, key: String, behavior: MockBehavior)
        requires
            old(self).wf(),
        ensures
            final(self).wf(),
            final(self).table() == old(self).table().insert(key@, behavior@),
            final(self).linux_host() == old(self).linux_host(),
            final(self).systemd_host() == old(self).systemd_host(),
    {
        let ghost pre = *self;
        let ghost kv = key@;
        let ghost bv = behavior@;
        self.keys.push(key);
        self.behaviors.push(behavior);
        assert(self.key_views() =~= pre.key_views().push(kv));
        assert(self.behavior_views() =~= pre.behavior_views().push(bv));
        assert(self.key_views().drop_last() =~= pre.key_views());
        assert(self.behavior_views().drop_last() =~= pre.behavior_views());
        assert(self.table() =~= pre.table().insert(kv, bv));
    }
}


/// The answer the scripted provider gives for a command line.
pub open spec fn mock_answer(m: MockProvider, command: Seq<char>, args: Seq<Seq<char>>) -> Result<
    CommandOutputView,
    Seq<char>,
> {
    let key = command_key(command, args);
    match m.response(key) {
        Some(b) => behavior_answer(command, b),
        None => Err("Mock response not found for: "@ + key),
    }
}

/// Builds the command line key: the command, a space, the arguments joined by spaces.
fn build_key(command: &str, args: &[&str]) -> (k: Vec<char>)
    ensures
        k@ == command_key(command@, str_views(args@)),
{
    let mut k: Vec<char> = Vec::new();
    push_str(&mut k, command);
    k.push(' ');
    let j = join_strs(args);
    push_chars(&mut k, &j);
    k
}

/// The arguments joined by single spaces.
pub fn join_strs(args: &[&str]) -> (k: Vec<char>)
    ensures
        k@ == join_args(str_views(args@)),
{
    let mut k: Vec<char> = Vec::new();
    let ghost a = str_views(args@);
    let mut i: usize = 0;
    while i < args.len()
        invariant
            i <= args@.len(),
            a == str_views(args@),
            k@ == join_args(a.take(i as int)),
        decreases args.len() - i,
    {
        let ghost before = k@;
        if i > 0 {
            k.push(' ');
        }
        push_str(&mut k, args[i]);
        assert(a.take(i + 1).drop_last() =~= a.take(i as int));
        assert(a.take(i + 1).last() == args@[i as int]@);
        if i == 0 {
            assert(join_args(a.take(1)) == a[0]);
            assert(k@ =~= join_args(a.take(i + 1)));
        } else {
            assert(k@ =~= join_args(a.take(i + 1)));
        }
        i = i + 1;
    }
    assert(a.take(args@.len() as int) =~= a);
    assert(join_args(a.take(0)) =~= Seq::<char>::empty());
    k
}

impl MockProvider {
    /// Scripts whether the host runs systemd (a new provider's host runs it when it is a
    /// Linux host).
    pub fn set_systemd(&mut self, systemd: bool)
        ensures
            final(self).systemd_host() == systemd,
            final(self).linux_host() == old(self).linux_host(),
            final(self).wf() == old(self).wf(),
            final(self).table() == old(self).table(),
    {
        self.systemd = systemd;
        assert(self.table() =~= old(self).table());
    }

    /// Index of the latest entry scripted for `key`, if any.
    fn find(&self, key: &String) -> (r: Option<usize>)
        requires
            self.wf(),
        ensures
            match r {
                Some(i) => i < self.behaviors@.len() && self.response(key@) == Some(
                    self.behaviors@[i as int]@,
                ),
                None => self.response(key@) is None,
            },
    {
        let mut i = self.keys.len();
        assert(self.key_views().take(i as int) =~= self.key_views());
        assert(self.behavior_views().take(i as int) =~= self.behavior_views());
        while i > 0
            invariant
                self.wf(),
                i <= self.keys@.len(),
                self.response(key@) == lookup_response(
                    self.key_views().take(i as int),
                    self.behavior_views().take(i as int),
                    key@,
                ),
            decreases i,
        {
            let ghost kt = self.key_views().take(i as int);
            let ghost bt = self.behavior_views().take(i as int);
            assert(kt.drop_last() =~= self.key_views().take(i - 1));
            assert(bt.drop_last() =~= self.behavior_views().take(i - 1));
            if self.keys[i - 1] == *key {
                return Some(i - 1);
            }
            i = i - 1;
        }
        None
    }
}

impl CommandProvider for MockProvider {
    open spec fn answers(
        &self,
        command: Seq<char>,
        args: Seq<Seq<char>>,
        answer: Result<CommandOutputView, Seq<char>>,
    ) -> bool {
        self.wf() ==> answer == mock_answer(*self, command, args)
    }

    open spec fn on_linux(&self) -> bool {
        self.linux_host()
    }

    closed spec fn ran(&self) -> Seq<(Seq<char>, Seq<Seq<char>>)> {
        self.lines_run@
    }

    fn run(&mut self, command: &str, args: &[&str]) -> (r: Result<CommandOutput, String>) {
        self.lines_run = Ghost(self.lines_run@.push((command@, str_views(args@))));
        let key_chars = build_key(command, args);
        let key = string_of(&key_chars);
        if !(self.keys.len() == self.behaviors.len()) {
            return Err(key);
        }
        assert(self.key_views().take(self.keys@.len() as int) =~= self.key_views());
        assert(self.behavior_views().take(self.keys@.len() as int) =~= self.behavior_views());
        match self.find(&key) {
            None => {
                let mut msg: Vec<char> = Vec::new();
                push_str(&mut msg, "Mock response not found for: ");
                push_chars(&mut msg, &key_chars);
                Err(string_of(&msg))
            },
            Some(i) => match &self.behaviors[i] {
                MockBehavior::Success(o) => Ok(o.duplicate()),
                MockBehavior::MissingBinary => {
                    let mut msg: Vec<char> = Vec::new();
                    push_str(&mut msg, "Binary missing: ");
                    push_str(&mut msg, command);
                    Err(string_of(&msg))
                },
                MockBehavior::ExitFailure { exit_code, stderr } => Ok(
                    CommandOutput { stdout: String::new(), stderr: stderr.clone(), success: false },
                ),
                MockBehavior::Timeout => {
                    let mut msg: Vec<char> = Vec::new();
                    push_str(&mut msg, "Command timed out: ");
                    push_str(&mut msg, command);
                    Err(string_of(&msg))
                },
            },
        }
    }

    fn is_linux(&self) -> (b: bool) {
        self.linux
    }

    open spec fn on_systemd(&self) -> bool {
        self.systemd_host()
    }

    fn has_systemd(&self) -> (b: bool) {
        self.systemd
    }
}


/// Runs commands on this host through a runner that the program supplies: the runner starts
/// the process and gathers its output, so what a command answers is up to the host.
pub struct RealProvider<F: Fn(&str, &[&str]) -> Result<CommandOutput, String>> {
    runner: F,
    linux: bool,
    systemd: bool,
    lines_run: Ghost<Seq<(Seq<char>, Seq<Seq<char>>)>>,
}

impl<F: Fn(&str, &[&str]) -> Result<CommandOutput, String>> RealProvider<F> {
    /// The runner accepts every command line.
    #[verifier::type_invariant]
    spec fn runner_total(self) -> bool {
        forall|c: &str, a: &[&str]| #[trigger] call_requires(self.runner, (c, a))
    }

    pub closed spec fn linux_host(&self) -> bool {
        self.linux
    }

    /// The runner that starts the commands.
    pub closed spec fn command_runner(&self) -> F {
        self.runner
    }

    pub closed spec fn systemd_host(&self) -> bool {
        self.systemd
    }

    /// A provider that runs commands through `runner`, on a Linux host when `linux`, on one
    /// that runs systemd when `systemd`.
    pub fn new(runner: F, linux: bool, systemd: bool) -> (p: Self)
        requires
            forall|c: &str, a: &[&str]| #[trigger] call_requires(runner, (c, a)),
        ensures
            p.linux_host() == linux,
            p.systemd_host() == systemd,
            p.command_runner() == runner,
    {
        RealProvider { runner, linux, systemd, lines_run: Ghost(Seq::empty()) }
    }
}

impl<F: Fn(&str, &[&str]) -> Result<CommandOutput, String>> CommandProvider for RealProvider<F> {
    /// Any answer: the host decides what a command prints.
    open spec fn answers(
        &self,
        command: Seq<char>,
        args: Seq<Seq<char>>,
        answer: Result<CommandOutputView, Seq<char>>,
    ) -> bool {
        true
    }

    open spec fn on_linux(&self) -> bool {
        self.linux_host()
    }

    closed spec fn ran(&self) -> Seq<(Seq<char>, Seq<Seq<char>>)> {
        self.lines_run@
    }

    /// What the runner gives for the command line.
    fn run(&mut self, command: &str, args: &[&str]) -> (r: Result<CommandOutput, String>)
        ensures
            call_ensures(old(self).command_runner(), (command, args), r),
            final(self).command_runner() == old(self).command_runner(),
    {
        proof {
            use_type_invariant(&*self);
        }
        self.lines_run = Ghost(self.lines_run@.push((command@, str_views(args@))));
        (self.runner)(command, args)
    }

    fn is_linux(&self) -> (b: bool) {
        self.linux
    }

    open spec fn on_systemd(&self) -> bool {
        self.systemd_host()
    }

    fn has_systemd(&self) -> (b: bool) {
        self.systemd
    }
}

/// Tools that often need root for their full output.
pub open spec fn privileged_tool(command: Seq<char>) -> bool {
    command == "smartctl"@ || command == "journalctl"@ || command == "ss"@ || command == "docker"@
        || command == "podman"@ || command == "dmesg"@ || command == "getenforce"@ || command
        == "aa-status"@ || command == "ufw"@ || command == "iptables"@ || command == "firewall-cmd"@
}

/// Whether a failed run of a tool is tried again through non-interactive `sudo`: when it
/// is one that often needs root.
pub fn retries_with_sudo(command: &str, success: bool) -> (b: bool)
    ensures
        b == (!success && privileged_tool(command@)),
{
    if success {
        return false;
    }
    let c = chars_of(command);
    crate::text::equals_str(&c, "smartctl") || crate::text::equals_str(&c, "journalctl")
        || crate::text::equals_str(&c, "ss") || crate::text::equals_str(&c, "docker")
        || crate::text::equals_str(&c, "podman") || crate::text::equals_str(&c, "dmesg")
        || crate::text::equals_str(&c, "getenforce") || crate::text::equals_str(&c, "aa-status")
        || crate::text::equals_str(&c, "ufw") || crate::text::equals_str(&c, "iptables")
        || crate::text::equals_str(&c, "firewall-cmd")
}

} // verus!
