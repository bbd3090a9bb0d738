//! The sandbox that a child enters between fork and exec: which steps it takes,
//! and in which order. The steps are worked out before the fork, so that the
//! child itself neither allocates nor locks.

use vstd::prelude::*;

use crate::proto::{Limits, Spec};
use crate::text::decimal_string;

verus! {

/// One step of the sandbox. A step that fails ends the child.
#[derive(Debug, Clone, PartialEq)]
pub enum SandboxStep {
    /// Die when the supervisor dies.
    DieWithParent,
    /// Cap the address space, in bytes.
    CapAddressSpace(u64),
    /// Cap the total CPU time, in seconds.
    CapCpu(u64),
    /// Join the child's control-group leaf.
    JoinCgroup,
    /// Enter fresh user, mount, network, UTS and IPC namespaces.
    Unshare,
    /// Write these bytes to `/proc/self/setgroups` in one go.
    SetGroups(Vec<u8>),
    /// Write these bytes to `/proc/self/uid_map` in one go.
    UidMap(Vec<u8>),
    /// Write these bytes to `/proc/self/gid_map` in one go.
    GidMap(Vec<u8>),
    /// Keep the child's mounts to itself.
    PrivateMounts,
    /// Mount an empty file system over this directory.
    HideDir(Vec<u8>),
}

/// A step, with its bytes as a sequence.
pub enum SandboxStepView {
    DieWithParent,
    CapAddressSpace(u64),
    CapCpu(u64),
    JoinCgroup,
    Unshare,
    SetGroups(Seq<u8>),
    UidMap(Seq<u8>),
    GidMap(Seq<u8>),
    PrivateMounts,
    HideDir(Seq<u8>),
}

impl View for SandboxStep {
    type V = SandboxStepView;

    open spec fn view(&self) -> SandboxStepView {
        match self {
            SandboxStep::DieWithParent => SandboxStepView::DieWithParent,
            SandboxStep::CapAddressSpace(n) => SandboxStepView::CapAddressSpace(*n),
            SandboxStep::CapCpu(n) => SandboxStepView::CapCpu(*n),
            SandboxStep::JoinCgroup => SandboxStepView::JoinCgroup,
            SandboxStep::Unshare => SandboxStepView::Unshare,
            SandboxStep::SetGroups(b) => SandboxStepView::SetGroups(b@),
            SandboxStep::UidMap(b) => SandboxStepView::UidMap(b@),
            SandboxStep::GidMap(b) => SandboxStepView::GidMap(b@),
            SandboxStep::PrivateMounts => SandboxStepView::PrivateMounts,
            SandboxStep::HideDir(b) => SandboxStepView::HideDir(b@),
        }
    }
}

/// The steps, with their bytes as sequences.
pub open spec fn sandbox_view(v: Seq<SandboxStep>) -> Seq<SandboxStepView> {
    Seq::new(v.len(), |i: int| v[i]@)
}

/// What a child's sandbox depends on.
#[derive(Debug)]
pub struct Sandbox {
    /// The cap on the address space.
    pub memory: Option<u64>,
    /// The cap on the CPU time.
    pub cpu: Option<u64>,
    /// Whether there is a control-group leaf to join.
    pub join_cgroup: bool,
    /// Whether the child runs in fresh namespaces.
    pub isolate: bool,
    /// The directory to hide from an isolated child.
    pub store_dir: Option<Vec<u8>>,
}

/// A path as the file system hands it out: it begins with a slash, and no slash
/// follows another or ends it.
pub open spec fn canonical(p: Seq<u8>) -> bool {
    &&& p.len() > 0
    &&& p[0] == 47
    &&& forall|i: int| 0 < i < p.len() && #[trigger] p[i] == 47 ==> p[i - 1] != 47 && i + 1 < p.len()
}

/// The position of the last slash.
pub open spec fn last_slash(p: Seq<u8>) -> int
    decreases p.len(),
{
    if p.len() == 0 || p.last() == 47 {
        p.len() - 1
    } else {
        last_slash(p.drop_last())
    }
}

/// The directory that a canonical path lies in; the root lies in none.
pub open spec fn parent_dir(p: Seq<u8>) -> Option<Seq<u8>> {
    if p.len() <= 1 {
        None
    } else if last_slash(p) <= 0 {
        Some(seq![47u8])
    } else {
        Some(p.take(last_slash(p)))
    }
}

/// The directory to hide: the one that the store lies in. A name that holds a
/// zero byte cannot be handed to the kernel.
pub open spec fn hide_dir(store: Option<Seq<u8>>) -> Option<Seq<u8>> {
    match store {
        None => None,
        Some(p) => match parent_dir(p) {
            Some(d) => if d.contains(0u8) {
                None
            } else {
                Some(d)
            },
            None => None,
        },
    }
}

/// The directory to hide from an isolated child, so that it cannot read the
/// node's secret key: the one that the store's canonical path lies in.
pub fn store_hide_dir(store: Option<&Vec<u8>>) -> (r: Option<Vec<u8>>)
    requires
        store matches Some(p) ==> canonical(p@),
    ensures
        (match r {
            Some(d) => Some(d@),
            None => None,
        }) == hide_dir(
            match store {
                Some(p) => Some(p@),
                None => None,
            },
        ),
{
    let p = match store {
        Some(p) => p,
        None => {
            return None;
        },
    };
    let n: usize = p.len();
    if n <= 1 {
        return None;
    }
    let mut i: usize = n;
    assert(p@.take(n as int) =~= p@);
    while i > 1 && p[i - 1] != 47
        invariant
            1 <= i <= n == p@.len(),
            last_slash(p@) == last_slash(p@.take(i as int)),
        decreases i,
    {
        assert(p@.take(i as int).drop_last() =~= p@.take(i - 1));
        assert(p@.take(i as int).last() == p@[i - 1]);
        i = i - 1;
    }
    assert(p@.take(i as int).last() == p@[i - 1]);
    assert(last_slash(p@) == i - 1);
    let len: usize = if i == 1 {
        1
    } else {
        i - 1
    };
    let mut d: Vec<u8> = Vec::new();
    let mut k: usize = 0;
    while k < len
        invariant
            k <= len <= p@.len(),
            d@ == p@.take(k as int),
            !d@.contains(0u8),
            parent_dir(p@) == Some(p@.take(len as int)),
            store == Some(p),
        decreases len - k,
    {
        let b: u8 = p[k];
        if b == 0 {
            assert(p@.take(len as int)[k as int] == 0u8);
            return None;
        }
        d.push(b);
        k = k + 1;
        assert(p@.take(k as int) =~= p@.take(k - 1).push(b));
        assert(forall|j: int| 0 <= j < d@.len() ==> #[trigger] d@[j] != 0u8) by {
            assert forall|j: int| 0 <= j < d@.len() implies #[trigger] d@[j] != 0u8 by {
                if j < k - 1 {
                    assert(d@.drop_last()[j] == d@[j]);
                    assert(d@.drop_last() =~= p@.take(k - 1));
                }
            }
        }
    }
    Some(d)
}

/// The single-id map from a namespace's root to `id`.
pub open spec fn id_map_text(id: u32) -> Seq<char> {
    "0 "@ + crate::text::decimal(id as nat) + " 1\n"@
}

/// The single-id map from a namespace's root to `id`: `0 <id> 1` and a newline.
pub fn id_map(id: u32) -> (b: Vec<u8>)
    ensures
        b@ == vstd::utf8::encode_utf8(id_map_text(id)),
{
    let mut s = String::new();
    s.append("0 ");
    s.append(decimal_string(id as u64).as_str());
    s.append(" 1\n");
    assert(s@ =~= id_map_text(id));
    vstd::slice::slice_to_vec(s.as_str().as_bytes())
}

/// The steps that move an isolated child into its namespaces.
pub open spec fn namespace_steps(uid: u32, gid: u32, dir: Option<Seq<u8>>) -> Seq<SandboxStepView> {
    seq![
        SandboxStepView::Unshare,
        SandboxStepView::SetGroups(vstd::utf8::encode_utf8("deny"@)),
        SandboxStepView::UidMap(vstd::utf8::encode_utf8(id_map_text(uid))),
        SandboxStepView::GidMap(vstd::utf8::encode_utf8(id_map_text(gid))),
        SandboxStepView::PrivateMounts,
    ] + match dir {
        Some(d) => seq![SandboxStepView::HideDir(d)],
        None => Seq::empty(),
    }
}

/// All the steps, in order: the caps and the control group come while the child
/// still has the host's privileges, the namespaces last.
pub open spec fn sandbox_steps(
    memory: Option<u64>,
    cpu: Option<u64>,
    join_cgroup: bool,
    isolate: bool,
    dir: Option<Seq<u8>>,
    uid: u32,
    gid: u32,
) -> Seq<SandboxStepView> {
    seq![SandboxStepView::DieWithParent] + (match memory {
        Some(n) => seq![SandboxStepView::CapAddressSpace(n)],
        None => Seq::empty(),
    }) + (match cpu {
        Some(n) => seq![SandboxStepView::CapCpu(n)],
        None => Seq::empty(),
    }) + (if join_cgroup {
        seq![SandboxStepView::JoinCgroup]
    } else {
        Seq::empty()
    }) + (if isolate {
        namespace_steps(uid, gid, dir)
    } else {
        Seq::empty()
    })
}

impl Sandbox {
    /// What the directory to hide is, as a sequence.
    pub open spec fn dir(&self) -> Option<Seq<u8>> {
        match self.store_dir {
            Some(d) => Some(d@),
            None => None,
        }
    }

    /// Captures what the sandbox depends on. `store` is the store's canonical
    /// path; its directory is only hidden from an isolated child.
    pub fn new(limits: &Limits, isolate: bool, join_cgroup: bool, store: Option<&Vec<u8>>) -> (s:
        Sandbox)
        requires
            store matches Some(p) ==> canonical(p@),
        ensures
            s.memory == limits.memory,
            s.cpu == limits.cpu,
            s.join_cgroup == join_cgroup,
            s.isolate == isolate,
            s.dir() == (if isolate {
                hide_dir(
                    match store {
                        Some(p) => Some(p@),
                        None => None,
                    },
                )
            } else {
                None
            }),
    {
        let store_dir = if isolate {
            store_hide_dir(store)
        } else {
            None
        };
        Sandbox { memory: limits.memory, cpu: limits.cpu, join_cgroup, isolate, store_dir }
    }

    /// What the sandbox of a child that runs `spec` depends on: the caps and the
    /// isolation that the client asked for, whether the child has a leaf to join, and
    /// the store's canonical path.
    pub fn for_child(spec: &Spec, join_cgroup: bool, store: Option<&Vec<u8>>) -> (s: Sandbox)
        requires
            store matches Some(p) ==> canonical(p@),
        ensures
            s.memory == spec.limits.memory,
            s.cpu == spec.limits.cpu,
            s.join_cgroup == join_cgroup,
            s.isolate == spec.isolate,
            s.dir() == (if spec.isolate {
                hide_dir(
                    match store {
                        Some(p) => Some(p@),
                        None => None,
                    },
                )
            } else {
                None
            }),
    {
        Sandbox::new(&spec.limits, spec.isolate, join_cgroup, store)
    }

    /// The steps to take in the child, in order. `uid` and `gid` are its ids
    /// before it enters the namespaces.
    pub fn apply(self, uid: u32, gid: u32) -> (steps: Vec<SandboxStep>)
        ensures
            sandbox_view(steps@) == sandbox_steps(
                self.memory,
                self.cpu,
                self.join_cgroup,
                self.isolate,
                self.dir(),
                uid,
                gid,
            ),
    {
        let ghost dir = self.dir();
        let mut steps: Vec<SandboxStep> = Vec::new();
        steps.push(SandboxStep::DieWithParent);
        if let Some(n) = self.memory {
            steps.push(SandboxStep::CapAddressSpace(n));
        }
        if let Some(n) = self.cpu {
            steps.push(SandboxStep::CapCpu(n));
        }
        if self.join_cgroup {
            steps.push(SandboxStep::JoinCgroup);
        }
        let ghost before = sandbox_view(steps@);
        if self.isolate {
            steps.push(SandboxStep::Unshare);
            steps.push(SandboxStep::SetGroups(vstd::slice::slice_to_vec("deny".as_bytes())));
            steps.push(SandboxStep::UidMap(id_map(uid)));
            steps.push(SandboxStep::GidMap(id_map(gid)));
            steps.push(SandboxStep::PrivateMounts);
            if let Some(d) = self.store_dir {
                steps.push(SandboxStep::HideDir(d));
            }
            assert(sandbox_view(steps@) =~= before + namespace_steps(uid, gid, dir));
        }
        assert(sandbox_view(steps@) =~= sandbox_steps(
            self.memory,
            self.cpu,
            self.join_cgroup,
            self.isolate,
            dir,
            uid,
            gid,
        ));
        steps
    }
}

/// Ten to the power of `k`.
pub open spec fn ten_to(k: nat) -> nat
    decreases k,
{
    if k == 0 {
        1
    } else {
        10 * ten_to((k - 1) as nat)
    }
}

/// A number below ten to the `k` has at most `k` digits.
proof fn lemma_decimal_len(n: nat, k: nat)
    requires
        n < ten_to(k),
        k > 0,
    ensures
        crate::text::decimal(n).len() <= k,
    decreases k,
{
    if n >= 10 {
        if k == 1 {
            assert(ten_to(0) == 1);
        }
        lemma_decimal_len(n / 10, (k - 1) as nat);
    }
}

/// Every id's map fits into a buffer of 32 bytes.
pub proof fn id_map_fits(id: u32)
    ensures
        vstd::utf8::encode_utf8(id_map_text(id)).len() <= 32,
{
    reveal_strlit("0 ");
    reveal_strlit(" 1\n");
    let d = crate::text::decimal(id as nat);
    let t = id_map_text(id);
    assert(ten_to(10) == 10_000_000_000) by {
        reveal_with_fuel(ten_to, 11);
    }
    lemma_decimal_len(id as nat, 10);
    crate::text::decimal_reads_back(id as nat);
    assert forall|i: int| 0 <= i < t.len() implies (#[trigger] t[i] as u32) <= 127 by {
        if 2 <= i < 2 + d.len() {
            assert(t[i] == d[i - 2]);
        }
    }
    vstd::utf8::is_ascii_chars_encode_utf8(t);
}

/// An isolated child cannot reach the store: the very last step before it runs
/// hides the directory that the store lies in.
pub proof fn stores_are_hidden_last(
    memory: Option<u64>,
    cpu: Option<u64>,
    join_cgroup: bool,
    store: Seq<u8>,
    uid: u32,
    gid: u32,
)
    requires
        hide_dir(Some(store)) is Some,
    ensures
        sandbox_steps(memory, cpu, join_cgroup, true, hide_dir(Some(store)), uid, gid).last()
            == SandboxStepView::HideDir(parent_dir(store)->0),
{
}

/// Everything that needs the host's privileges comes before the namespaces: no cap
/// is set and no group joined after the child has entered them.
pub proof fn caps_come_before_namespaces(
    memory: Option<u64>,
    cpu: Option<u64>,
    join_cgroup: bool,
    dir: Option<Seq<u8>>,
    uid: u32,
    gid: u32,
    i: int,
    j: int,
)
    requires
        ({
            let s = sandbox_steps(memory, cpu, join_cgroup, true, dir, uid, gid);
            &&& 0 <= i < s.len()
            &&& 0 <= j < s.len()
            &&& s[i] is CapAddressSpace || s[i] is CapCpu || s[i] is JoinCgroup
            &&& s[j] == SandboxStepView::Unshare
        }),
    ensures
        i < j,
{
    let s = sandbox_steps(memory, cpu, join_cgroup, true, dir, uid, gid);
    let n = namespace_steps(uid, gid, dir);
    let k = s.len() - n.len();
    assert forall|q: int| k <= q < s.len() implies s[q] == n[q - k] by {}
}

} // verus!
