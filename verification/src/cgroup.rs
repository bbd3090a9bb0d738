//! Control groups: where a group for the children can be made, which files cap
//! and count a child, and in which order a group is taken down. Reading and
//! writing those files is left to the caller.

use vstd::prelude::*;

use crate::proto::{Handle, Limits, Usage};
use crate::text::{
    chars_of, contains_word, decimal_string, find, lines_of, parse_u64, same_text, string_of,
    strip_prefix, trim,
};
use crate::time::Duration;

verus! {

/// Where the control-group file system is mounted.
pub const MOUNT: &'static str = "/sys/fs/cgroup";

/// A fixed name, so that a restart can find and sweep what a previous run left.
pub const GROUP: &'static str = "p2p-telemetry";

/// A path below a directory.
pub open spec fn joined(dir: Seq<char>, name: Seq<char>) -> Seq<char> {
    dir + seq!['/'] + name
}

/// A path below a directory.
fn join(dir: &str, name: &str) -> (s: String)
    ensures
        s@ == joined(dir@, name@),
{
    let mut s = String::new();
    s.append(dir);
    s.push('/');
    s.append(name);
    assert(s@ =~= joined(dir@, name@));
    s
}

/// One change to the control-group file system.
#[derive(Debug, Clone, PartialEq)]
pub enum Step {
    CreateDir { path: String },
    Write { path: String, text: String },
    RemoveDir { path: String },
}

/// What a step does, with its texts as sequences.
pub enum StepView {
    CreateDir { path: Seq<char> },
    Write { path: Seq<char>, text: Seq<char> },
    RemoveDir { path: Seq<char> },
}

impl View for Step {
    type V = StepView;

    open spec fn view(&self) -> StepView {
        match self {
            Step::CreateDir { path } => StepView::CreateDir { path: path@ },
            Step::Write { path, text } => StepView::Write { path: path@, text: text@ },
            Step::RemoveDir { path } => StepView::RemoveDir { path: path@ },
        }
    }
}

/// The steps, with their texts as sequences.
pub open spec fn steps_view(v: Seq<Step>) -> Seq<StepView> {
    Seq::new(v.len(), |i: int| v[i]@)
}

/// The group under which each child gets a leaf of its own.
#[derive(Debug)]
pub struct Cgroups {
    parent: String,
}

impl View for Cgroups {
    type V = Seq<char>;

    closed spec fn view(&self) -> Seq<char> {
        self.parent@
    }
}

/// The directory of a child's leaf.
pub open spec fn leaf_dir(parent: Seq<char>, handle: Handle) -> Seq<char> {
    joined(parent, crate::text::decimal(handle as nat))
}

/// Different children have different leaves.
pub proof fn leaves_are_distinct(parent: Seq<char>, a: Handle, b: Handle)
    requires
        leaf_dir(parent, a) == leaf_dir(parent, b),
    ensures
        a == b,
{
    let n = parent.len() + 1;
    assert(leaf_dir(parent, a).skip(n as int) =~= crate::text::decimal(a as nat));
    assert(leaf_dir(parent, b).skip(n as int) =~= crate::text::decimal(b as nat));
    crate::text::decimal_reads_back(a as nat);
    crate::text::decimal_reads_back(b as nat);
}

/// The caps that are written into a new leaf.
pub open spec fn cap_writes(leaf: Seq<char>, limits: Limits) -> Seq<StepView> {
    let memory = match limits.memory {
        Some(n) => seq![
            StepView::Write {
                path: joined(leaf, "memory.max"@),
                text: crate::text::decimal(n as nat),
            },
        ],
        None => Seq::empty(),
    };
    let pids = match limits.pids {
        Some(n) => seq![
            StepView::Write {
                path: joined(leaf, "pids.max"@),
                text: crate::text::decimal(n as nat),
            },
        ],
        None => Seq::empty(),
    };
    memory + pids
}

/// How a child's leaf is made.
#[derive(Debug)]
pub struct LeafPlan {
    /// The leaf to create; if that fails, the child goes without one.
    pub dir: String,
    /// The caps to write; one that fails is left off.
    pub caps: Vec<Step>,
    /// The file through which the child joins the leaf.
    pub procs: String,
}

/// What to do when a step of a group's setup fails.
#[derive(Debug)]
pub enum SetupFailure {
    /// Go on with the next step.
    GoOn,
    /// Do without control groups.
    GiveUp,
    /// Take this step, once, and do without control groups.
    Undo(Step),
}

/// How often the removal of a directory is tried.
pub const REMOVAL_TRIES: u32 = 50;

/// How long to wait, in milliseconds, between two tries.
pub const REMOVAL_WAIT_MS: u64 = 10;

/// How long to wait before the next try to remove a directory, `tries` of which have
/// been made: the kernel takes a while to reap what was killed in it. `None` if it
/// is gone, or has been tried often enough.
pub fn removal_wait(tries: u32, gone: bool) -> (r: Option<Duration>)
    ensures
        r == (if !gone && tries < REMOVAL_TRIES {
            Some(Duration::millis_spec(REMOVAL_WAIT_MS as nat))
        } else {
            None
        }),
        r matches Some(d) ==> d.nanos == 10_000_000,
{
    if !gone && tries < REMOVAL_TRIES {
        Some(Duration::from_millis(REMOVAL_WAIT_MS))
    } else {
        None
    }
}

/// The steps that kill what is left in a leaf and remove it.
pub open spec fn leaf_removal(leaf: Seq<char>) -> Seq<StepView> {
    seq![
        StepView::Write { path: joined(leaf, "cgroup.kill"@), text: "1"@ },
        StepView::RemoveDir { path: leaf },
    ]
}

/// The steps that take a whole group down: every leaf, then the group.
pub open spec fn group_removal(parent: Seq<char>, leaves: Seq<Seq<char>>) -> Seq<StepView>
    decreases leaves.len(),
{
    if leaves.len() == 0 {
        seq![StepView::RemoveDir { path: parent }]
    } else {
        leaf_removal(leaves[0]) + group_removal(parent, leaves.drop_first())
    }
}

/// The views of a list of texts.
pub open spec fn strings_view(v: Seq<String>) -> Seq<Seq<char>> {
    Seq::new(v.len(), |i: int| v[i]@)
}

/// The number that a counter file holds.
pub open spec fn counter(text: Seq<char>) -> Option<u64> {
    crate::text::parsed_u64(crate::text::trimmed(text))
}

/// The number that a line of a statistics file holds under `usage_usec`.
pub open spec fn line_usec(line: Seq<char>) -> Option<u64> {
    let key = "usage_usec "@;
    if crate::text::starts_with(line, key) {
        counter(line.skip(key.len() as int))
    } else {
        None
    }
}

/// The first such number among the lines.
pub open spec fn first_usec(ls: Seq<Seq<char>>) -> Option<u64>
    decreases ls.len(),
{
    if ls.len() == 0 {
        None
    } else if line_usec(ls[0]) is Some {
        line_usec(ls[0])
    } else {
        first_usec(ls.drop_first())
    }
}

/// The usage that the two files of a leaf report.
pub open spec fn usage_spec(mem: Option<Seq<char>>, stat: Option<Seq<char>>) -> Option<Usage> {
    match (mem, stat) {
        (Some(m), Some(s)) => match (counter(m), first_usec(crate::text::lines(s))) {
            (Some(mem_bytes), Some(cpu_usec)) => Some(Usage { mem_bytes, cpu_usec }),
            _ => None,
        },
        _ => None,
    }
}

/// The number in a counter file.
fn read_counter(text: &[char]) -> (r: Option<u64>)
    ensures
        r == counter(text@),
{
    let s = string_of(trim(text));
    match parse_u64(s.as_str()) {
        Ok(n) => Some(n),
        Err(_) => None,
    }
}

/// The first readable `usage_usec` of a statistics file.
fn read_usec(stat: &[char]) -> (r: Option<u64>)
    ensures
        r == first_usec(crate::text::lines(stat@)),
{
    let ls = lines_of(stat);
    let key = chars_of("usage_usec ");
    let ghost all = crate::text::texts(ls@);
    assert(all.skip(0) =~= all);
    let mut i: usize = 0;
    while i < ls.len()
        invariant
            i <= ls@.len(),
            key@ == "usage_usec "@,
            all == crate::text::texts(ls@),
            all == crate::text::lines(stat@),
            first_usec(all) == first_usec(all.skip(i as int)),
        decreases ls@.len() - i,
    {
        assert(all.skip(i as int)[0] == ls@[i as int]@);
        assert(all.skip(i as int).drop_first() =~= all.skip(i + 1));
        if let Some(rest) = strip_prefix(ls[i].as_slice(), key.as_slice()) {
            if let Some(cpu_usec) = read_counter(rest) {
                return Some(cpu_usec);
            }
        }
        i = i + 1;
    }
    None
}

/// Whether the group at `group` lies below the first of the directories that grants
/// the memory controller.
pub open spec fn detected_in(dirs: Seq<String>, controls: Seq<String>, group: Seq<char>) -> bool {
    exists|i: int|
        0 <= i < dirs.len() && #[trigger] crate::text::has_word(controls[i]@, "memory"@) && group
            == joined(dirs[i]@, GROUP@) && forall|j: int|
            0 <= j < i ==> !#[trigger] crate::text::has_word(controls[j]@, "memory"@)
}

/// Whether none of the directories grants the memory controller.
pub open spec fn undetected(dirs: Seq<String>, controls: Seq<String>) -> bool {
    forall|i: int|
        0 <= i < dirs.len() ==> !#[trigger] crate::text::has_word(controls[i]@, "memory"@)
}

impl Cgroups {
    /// The group below the first of the directories whose `subtree_control` file
    /// grants the memory controller; `None` if none does.
    pub fn detect(dirs: &Vec<String>, controls: &Vec<String>) -> (r: Option<Cgroups>)
        requires
            dirs@.len() == controls@.len(),
        ensures
            match r {
                Some(c) => detected_in(dirs@, controls@, c@),
                None => undetected(dirs@, controls@),
            },
    {
        let memory = chars_of("memory");
        let mut i: usize = 0;
        while i < dirs.len()
            invariant
                i <= dirs@.len() == controls@.len(),
                memory@ == "memory"@,
                forall|j: int|
                    0 <= j < i ==> !#[trigger] crate::text::has_word(controls@[j]@, "memory"@),
            decreases dirs@.len() - i,
        {
            let control = chars_of(controls[i].as_str());
            if contains_word(control.as_slice(), memory.as_slice()) {
                return Some(Cgroups { parent: join(dirs[i].as_str(), GROUP) });
            }
            i = i + 1;
        }
        None
    }

    /// How the group itself is made: a previous run's leftovers, `leaves`, go
    /// first; then the group is created and its controllers are passed on.
    pub fn setup(&self, leaves: &Vec<String>) -> (steps: Vec<Step>)
        ensures
            steps_view(steps@) == group_removal(self@, strings_view(leaves@)) + seq![
                StepView::CreateDir { path: self@ },
                StepView::Write {
                    path: joined(self@, "cgroup.subtree_control"@),
                    text: "+memory +pids"@,
                },
            ],
    {
        let mut steps = self.shutdown(leaves);
        let ghost before = steps_view(steps@);
        steps.push(Step::CreateDir { path: self.parent.clone() });
        steps.push(
            Step::Write {
                path: join(self.parent.as_str(), "cgroup.subtree_control"),
                text: "+memory +pids".to_owned(),
            },
        );
        assert(steps_view(steps@) =~= before + seq![
            StepView::CreateDir { path: self@ },
            StepView::Write {
                path: joined(self@, "cgroup.subtree_control"@),
                text: "+memory +pids"@,
            },
        ]);
        steps
    }

    /// What to do when a step of the setup fails. A leftover that cannot be swept is
    /// left to the next step; without the group, or without its controllers, there
    /// are no control groups, and a group that has none goes again.
    pub fn setup_failed(&self, step: &Step) -> (r: SetupFailure)
        ensures
            match step@ {
                StepView::CreateDir { .. } => r is GiveUp,
                StepView::Write { path, .. } => if path == joined(
                    self@,
                    "cgroup.subtree_control"@,
                ) {
                    r matches SetupFailure::Undo(undo) && undo@ == (StepView::RemoveDir {
                        path: self@,
                    })
                } else {
                    r is GoOn
                },
                StepView::RemoveDir { .. } => r is GoOn,
            },
    {
        match step {
            Step::CreateDir { .. } => SetupFailure::GiveUp,
            Step::RemoveDir { .. } => SetupFailure::GoOn,
            Step::Write { path, .. } => {
                let given = chars_of(path.as_str());
                let control = join(self.parent.as_str(), "cgroup.subtree_control");
                let control = chars_of(control.as_str());
                if same_text(given.as_slice(), control.as_slice()) {
                    SetupFailure::Undo(Step::RemoveDir { path: self.parent.clone() })
                } else {
                    SetupFailure::GoOn
                }
            },
        }
    }

    /// The directory of a child's leaf.
    pub fn leaf(&self, handle: Handle) -> (s: String)
        ensures
            s@ == leaf_dir(self@, handle),
    {
        join(self.parent.as_str(), decimal_string(handle).as_str())
    }

    /// How the leaf of `handle` is made and capped, and where the child joins it.
    pub fn create_leaf(&self, handle: Handle, limits: &Limits) -> (p: LeafPlan)
        ensures
            p.dir@ == leaf_dir(self@, handle),
            steps_view(p.caps@) == cap_writes(leaf_dir(self@, handle), *limits),
            p.procs@ == joined(leaf_dir(self@, handle), "cgroup.procs"@),
    {
        let dir = self.leaf(handle);
        let mut caps: Vec<Step> = Vec::new();
        if let Some(n) = limits.memory {
            caps.push(
                Step::Write { path: join(dir.as_str(), "memory.max"), text: decimal_string(n) },
            );
        }
        if let Some(n) = limits.pids {
            caps.push(
                Step::Write { path: join(dir.as_str(), "pids.max"), text: decimal_string(n) },
            );
        }
        assert(steps_view(caps@) =~= cap_writes(dir@, *limits));
        let procs = join(dir.as_str(), "cgroup.procs");
        LeafPlan { dir, caps, procs }
    }

    /// The files that count a leaf's memory and CPU time.
    pub fn usage_files(&self, handle: Handle) -> (r: (String, String))
        ensures
            r.0@ == joined(leaf_dir(self@, handle), "memory.current"@),
            r.1@ == joined(leaf_dir(self@, handle), "cpu.stat"@),
    {
        let dir = self.leaf(handle);
        (join(dir.as_str(), "memory.current"), join(dir.as_str(), "cpu.stat"))
    }

    /// The usage that a leaf's files report: the memory counter and the first
    /// readable `usage_usec`. `None` if a file or a number is missing.
    pub fn usage(memory_current: Option<&str>, cpu_stat: Option<&str>) -> (r: Option<Usage>)
        ensures
            r == usage_spec(
                match memory_current {
                    Some(t) => Some(t@),
                    None => None,
                },
                match cpu_stat {
                    Some(t) => Some(t@),
                    None => None,
                },
            ),
    {
        let (mem, stat) = match (memory_current, cpu_stat) {
            (Some(m), Some(s)) => (chars_of(m), chars_of(s)),
            _ => {
                return None;
            },
        };
        let mem_bytes: u64 = match read_counter(mem.as_slice()) {
            Some(n) => n,
            None => {
                return None;
            },
        };
        match read_usec(stat.as_slice()) {
            Some(cpu_usec) => Some(Usage { mem_bytes, cpu_usec }),
            None => None,
        }
    }

    /// How every process in a leaf is killed without removing the leaf.
    pub fn kill(&self, handle: Handle) -> (s: Step)
        ensures
            s@ == (StepView::Write {
                path: joined(leaf_dir(self@, handle), "cgroup.kill"@),
                text: "1"@,
            }),
    {
        Step::Write {
            path: join(self.leaf(handle).as_str(), "cgroup.kill"),
            text: "1".to_owned(),
        }
    }

    /// How what is left in a leaf is killed and the leaf removed.
    pub fn remove(&self, handle: Handle) -> (steps: Vec<Step>)
        ensures
            steps_view(steps@) == leaf_removal(leaf_dir(self@, handle)),
    {
        let mut steps: Vec<Step> = Vec::new();
        steps.push(self.kill(handle));
        steps.push(Step::RemoveDir { path: self.leaf(handle) });
        assert(steps_view(steps@) =~= leaf_removal(leaf_dir(self@, handle)));
        steps
    }

    /// How all children are killed and the whole group removed. `leaves` are the
    /// group's subdirectories; a group cannot be removed while it has any.
    pub fn shutdown(&self, leaves: &Vec<String>) -> (steps: Vec<Step>)
        ensures
            steps_view(steps@) == group_removal(self@, strings_view(leaves@)),
    {
        let ghost all = strings_view(leaves@);
        let mut steps: Vec<Step> = Vec::new();
        let mut i: usize = 0;
        assert(all.skip(0) =~= all);
        assert(steps_view(steps@) + group_removal(self@, all.skip(0)) =~= group_removal(self@, all));
        while i < leaves.len()
            invariant
                i <= leaves@.len(),
                all == strings_view(leaves@),
                steps_view(steps@) + group_removal(self@, all.skip(i as int)) == group_removal(
                    self@,
                    all,
                ),
            decreases leaves@.len() - i,
        {
            let ghost before = steps_view(steps@);
            let leaf = leaves[i].as_str();
            steps.push(Step::Write { path: join(leaf, "cgroup.kill"), text: "1".to_owned() });
            steps.push(Step::RemoveDir { path: leaf.to_owned() });
            assert(steps_view(steps@) =~= before + leaf_removal(leaf@));
            assert(all.skip(i as int)[0] == leaf@);
            assert(all.skip(i as int).drop_first() =~= all.skip(i + 1));
            assert(steps_view(steps@) + group_removal(self@, all.skip(i + 1)) =~= before + (
            leaf_removal(leaf@) + group_removal(self@, all.skip(i + 1))));
            i = i + 1;
        }
        let ghost before = steps_view(steps@);
        assert(all.skip(i as int) =~= Seq::<Seq<char>>::empty());
        steps.push(Step::RemoveDir { path: self.parent.clone() });
        assert(steps_view(steps@) =~= before + seq![StepView::RemoveDir { path: self@ }]);
        steps
    }
}

/// What follows the first `::` of a text.
pub open spec fn after_colons(s: Seq<char>) -> Option<Seq<char>>
    decreases s.len(),
{
    if s.len() < 2 {
        None
    } else if s[0] == ':' && s[1] == ':' {
        Some(s.skip(2))
    } else {
        after_colons(s.drop_first())
    }
}

/// What follows the first `::` of a text.
fn split_colons(s: &[char]) -> (r: Option<&[char]>)
    ensures
        match r {
            Some(t) => after_colons(s@) == Some(t@),
            None => after_colons(s@) is None,
        },
{
    let mut i: usize = 0;
    assert(s@.skip(0) =~= s@);
    while i < s.len() && s.len() - i >= 2
        invariant
            i <= s@.len(),
            after_colons(s@) == after_colons(s@.skip(i as int)),
        decreases s@.len() - i,
    {
        if s[i] == ':' && s[i + 1] == ':' {
            let t = vstd::slice::slice_subrange(s, i + 2, s.len());
            assert(t@ =~= s@.skip(i as int).skip(2));
            return Some(t);
        }
        assert(s@.skip(i as int).drop_first() =~= s@.skip(i + 1));
        i = i + 1;
    }
    None
}

/// The names along a path: empty ones and `.` do not count.
pub open spec fn components(s: Seq<char>) -> Seq<Seq<char>>
    decreases s.len(),
{
    let i = crate::text::find_char(s, '/') as int;
    let head = if i >= s.len() {
        s
    } else {
        s.take(i)
    };
    let tail = if i >= s.len() {
        Seq::empty()
    } else {
        components(s.skip(i + 1))
    };
    if head.len() == 0 || head == seq!['.'] {
        tail
    } else {
        seq![head] + tail
    }
}

/// The names along a path.
fn split_path(s: &[char]) -> (r: Vec<Vec<char>>)
    ensures
        crate::text::texts(r@) == components(s@),
{
    let mut r: Vec<Vec<char>> = Vec::new();
    let mut rest = s;
    let mut more = true;
    assert(crate::text::texts(r@) + components(s@) =~= components(s@));
    while more
        invariant
            crate::text::texts(r@) + (if more {
                components(rest@)
            } else {
                Seq::empty()
            }) == components(s@),
        decreases (if more {
            rest@.len() + 1
        } else {
            0
        }),
    {
        let ghost before = crate::text::texts(r@);
        let ghost cur = rest@;
        let i: usize = find(rest, '/');
        let n: usize = rest.len();
        let head = vstd::slice::slice_subrange(rest, 0, i);
        assert(head@ =~= (if i >= n { cur } else { cur.take(i as int) }));
        let dot = head.len() == 1 && head[0] == '.';
        proof {
            if dot {
                assert(head@ =~= seq!['.']);
            }
        }
        if head.len() != 0 && !dot {
            r.push(vstd::slice::slice_to_vec(head));
            assert(crate::text::texts(r@) =~= before + seq![head@]);
        }
        if i < n {
            let tail = vstd::slice::slice_subrange(rest, i + 1, n);
            assert(tail@ =~= cur.skip(i + 1));
            rest = tail;
        } else {
            more = false;
        }
        assert(crate::text::texts(r@) + (if more {
            components(rest@)
        } else {
            Seq::empty()
        }) =~= before + components(cur));
    }
    assert(crate::text::texts(r@) + Seq::<Seq<char>>::empty() =~= crate::text::texts(r@));
    r
}

/// The absolute path along these names.
pub open spec fn path_of(names: Seq<Seq<char>>) -> Seq<char>
    decreases names.len(),
{
    if names.len() == 0 {
        Seq::empty()
    } else {
        joined(path_of(names.drop_last()), names.last())
    }
}

/// The names along this process's own control group, from the root of the file
/// system, as `/proc/self/cgroup` tells it: what follows `::` on the first line,
/// below the mount point unless it is a path of its own.
pub open spec fn own_group(text: Seq<char>) -> Option<Seq<Seq<char>>> {
    let ls = crate::text::lines(text);
    if ls.len() == 0 {
        None
    } else {
        match after_colons(ls[0]) {
            None => None,
            Some(t) => {
                let rel = crate::text::trimmed(t);
                let below = if rel.len() > 0 && rel[0] == '/' {
                    rel.skip(1)
                } else {
                    rel
                };
                if below.len() > 0 && below[0] == '/' {
                    Some(components(below))
                } else {
                    Some(components(MOUNT@) + components(below))
                }
            },
        }
    }
}

/// The number of names along the mount point.
pub open spec fn mount_depth() -> nat {
    components(MOUNT@).len()
}

/// The directories above a group, the nearest first, up to the mount point.
pub open spec fn above(names: Seq<Seq<char>>) -> Seq<Seq<char>>
    decreases names.len(),
{
    if names.len() <= mount_depth() || names.take(mount_depth() as int) != components(MOUNT@) {
        Seq::empty()
    } else {
        seq![path_of(names.drop_last())] + above(names.drop_last())
    }
}

/// The absolute path along the first `n` names.
fn build_path(names: &Vec<Vec<char>>, n: usize) -> (s: String)
    requires
        n <= names@.len(),
    ensures
        s@ == path_of(crate::text::texts(names@).take(n as int)),
{
    let ghost all = crate::text::texts(names@);
    let mut s = String::new();
    let mut i: usize = 0;
    assert(all.take(0) =~= Seq::<Seq<char>>::empty());
    while i < n
        invariant
            i <= n <= names@.len(),
            all == crate::text::texts(names@),
            s@ == path_of(all.take(i as int)),
        decreases n - i,
    {
        s.push('/');
        let name = string_of(names[i].as_slice());
        s.append(name.as_str());
        assert(all.take(i + 1).drop_last() =~= all.take(i as int));
        assert(s@ =~= joined(path_of(all.take(i as int)), all[i as int]));
        i = i + 1;
    }
    s
}

/// The directories in which a group for the children may be made, the nearest
/// first: those above this process's own control group, up to the mount point.
/// `self_cgroup` is what `/proc/self/cgroup` holds.
pub fn candidate_dirs(self_cgroup: &str) -> (dirs: Vec<String>)
    ensures
        strings_view(dirs@) == (match own_group(self_cgroup@) {
            Some(names) => above(names),
            None => Seq::empty(),
        }),
{
    let mut dirs: Vec<String> = Vec::new();
    assert(strings_view(dirs@) =~= Seq::<Seq<char>>::empty());
    let text = chars_of(self_cgroup);
    let ls = lines_of(text.as_slice());
    let ghost lines = crate::text::texts(ls@);
    if ls.len() == 0 {
        return dirs;
    }
    assert(lines[0] == ls@[0]@);
    let t = match split_colons(ls[0].as_slice()) {
        Some(t) => t,
        None => {
            return dirs;
        },
    };
    let rel = trim(t);
    let below = if rel.len() > 0 && rel[0] == '/' {
        let cut = vstd::slice::slice_subrange(rel, 1, rel.len());
        assert(cut@ =~= rel@.skip(1));
        cut
    } else {
        rel
    };
    let mount_text = chars_of(MOUNT);
    let mount = split_path(mount_text.as_slice());
    let ghost mount_names = crate::text::texts(mount@);
    let mut names: Vec<Vec<char>> = Vec::new();
    if !(below.len() > 0 && below[0] == '/') {
        names = split_path(mount_text.as_slice());
    }
    let ghost prefix = crate::text::texts(names@);
    let mut tail = split_path(below);
    let ghost tail_names = crate::text::texts(tail@);
    names.append(&mut tail);
    let ghost all = crate::text::texts(names@);
    assert(all =~= prefix + tail_names);
    assert(all =~= own_group(self_cgroup@)->0);
    // Only a path below the mount point leads anywhere.
    if names.len() < mount.len() {
        return dirs;
    }
    let mut k: usize = 0;
    while k < mount.len()
        invariant
            k <= mount@.len() <= names@.len(),
            all == crate::text::texts(names@),
            mount_names == crate::text::texts(mount@),
            mount_names == components(MOUNT@),
            strings_view(dirs@) == Seq::<Seq<char>>::empty(),
            all == own_group(self_cgroup@)->0,
            own_group(self_cgroup@) is Some,
            forall|j: int| 0 <= j < k ==> all[j] == mount_names[j],
        decreases mount@.len() - k,
    {
        if !same_text(names[k].as_slice(), mount[k].as_slice()) {
            proof {
                assert(all.take(mount_depth() as int)[k as int] == all[k as int]);
                assert(all[k as int] != mount_names[k as int]);
            }
            return dirs;
        }
        k = k + 1;
    }
    let ghost depth = mount_depth() as int;
    assert(all.take(depth) =~= mount_names);
    let mut n: usize = names.len();
    assert(all.take(n as int) =~= all);
    assert(strings_view(dirs@) + above(all.take(n as int)) =~= above(all));
    while n > mount.len()
        invariant
            mount@.len() <= n <= names@.len(),
            mount@.len() == depth == mount_depth(),
            all == crate::text::texts(names@),
            all.take(depth) == components(MOUNT@),
            strings_view(dirs@) + above(all.take(n as int)) == above(all),
        decreases n,
    {
        let ghost before = strings_view(dirs@);
        let ghost cur = all.take(n as int);
        dirs.push(build_path(&names, n - 1));
        assert(cur.drop_last() =~= all.take(n - 1));
        assert(cur.take(depth) =~= all.take(depth));
        assert(strings_view(dirs@) =~= before + seq![path_of(cur.drop_last())]);
        assert(strings_view(dirs@) + above(cur.drop_last()) =~= before + above(cur));
        n = n - 1;
    }
    assert(above(all.take(n as int)) =~= Seq::<Seq<char>>::empty());
    assert(strings_view(dirs@) + above(all.take(n as int)) =~= strings_view(dirs@));
    dirs
}

/// Taking a group down reaches every leaf, kills what is in it before removing it,
/// and removes the group itself last.
pub proof fn shutdown_reaches_every_leaf(parent: Seq<char>, leaves: Seq<Seq<char>>, i: int)
    requires
        0 <= i < leaves.len(),
    ensures
        ({
            let steps = group_removal(parent, leaves);
            &&& steps.len() == 2 * leaves.len() + 1
            &&& steps[2 * i] == (StepView::Write {
                path: joined(leaves[i], "cgroup.kill"@),
                text: "1"@,
            })
            &&& steps[2 * i + 1] == (StepView::RemoveDir { path: leaves[i] })
            &&& steps.last() == (StepView::RemoveDir { path: parent })
        }),
    decreases leaves.len(),
{
    let rest = leaves.drop_first();
    let tail = group_removal(parent, rest);
    assert(group_removal(parent, leaves) == leaf_removal(leaves[0]) + tail);
    if rest.len() == 0 {
        assert(tail =~= seq![StepView::RemoveDir { path: parent }]);
    } else if i > 0 {
        shutdown_reaches_every_leaf(parent, rest, i - 1);
        assert(rest[i - 1] == leaves[i]);
    } else {
        shutdown_reaches_every_leaf(parent, rest, 0);
    }
}

/// Every directory in which a group may be made lies at or below the mount point.
pub proof fn candidates_stay_below_the_mount(names: Seq<Seq<char>>, i: int)
    requires
        0 <= i < above(names).len(),
    ensures
        crate::text::starts_with(above(names)[i], MOUNT@),
    decreases names.len(),
{
    lemma_mount_path();
    let up = names.drop_last();
    assert(above(names) == seq![path_of(up)] + above(up));
    if i == 0 {
        assert(up.take(mount_depth() as int) =~= names.take(mount_depth() as int));
        lemma_path_grows(up, mount_depth());
    } else {
        assert(above(names)[i] == above(up)[i - 1]);
        candidates_stay_below_the_mount(up, i - 1);
    }
}

/// The mount point's path is the path along its names.
pub proof fn lemma_mount_path()
    ensures
        path_of(components(MOUNT@)) == MOUNT@,
{
    reveal_strlit("/sys/fs/cgroup");
    let s = MOUNT@;
    let a = s.skip(1);
    let b = a.skip(4);
    let c = b.skip(3);
    crate::text::lemma_find_char(s, '/', 0);
    crate::text::lemma_find_char(a, '/', 3);
    crate::text::lemma_find_char(b, '/', 2);
    crate::text::lemma_find_char(c, '/', 6);
    let sys = a.take(3);
    let fs = b.take(2);
    assert(components(c) =~= seq![c]);
    assert(seq!['.'].len() == 1 && fs.len() == 2 && sys.len() == 3);
    assert(components(b) == seq![fs] + components(c));
    assert(components(b) =~= seq![fs, c]);
    assert(components(a) == seq![sys] + components(b));
    assert(components(a) =~= seq![sys, fs, c]);
    assert(components(s) =~= seq![sys, fs, c]);
    let names = seq![sys, fs, c];
    let two = names.drop_last();
    let one = two.drop_last();
    assert(one.drop_last() =~= Seq::<Seq<char>>::empty());
    assert(path_of(one.drop_last()) =~= Seq::<char>::empty());
    assert(path_of(one) =~= s.take(4));
    assert(path_of(two) =~= s.take(7));
    assert(path_of(names) =~= s);
}

/// The path along some names begins with the path along the first of them.
proof fn lemma_path_grows(names: Seq<Seq<char>>, n: nat)
    requires
        n <= names.len(),
    ensures
        crate::text::starts_with(path_of(names), path_of(names.take(n as int))),
    decreases names.len(),
{
    if n == names.len() {
        assert(names.take(n as int) =~= names);
        assert(path_of(names).take(path_of(names).len() as int) =~= path_of(names));
    } else {
        let up = names.drop_last();
        lemma_path_grows(up, n);
        assert(up.take(n as int) =~= names.take(n as int));
        let short = path_of(names.take(n as int));
        assert(path_of(names).take(short.len() as int) =~= path_of(up).take(short.len() as int));
    }
}

} // verus!
