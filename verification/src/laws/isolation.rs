//! What a child is confined by: its sandbox and its control group.

use vstd::prelude::*;

use crate::cgroup::{Cgroups, LeafPlan, SetupFailure, Step};
use crate::proto::{Handle, Limits, Spec, Usage};
use crate::sandbox::{Sandbox, SandboxStep};
use crate::time::Duration;

verus! {

/// One if it holds, else none.
pub open spec fn once(b: bool) -> int {
    if b {
        1
    } else {
        0
    }
}

/// Whether these bytes map a namespace's root, and nobody else, to `id`.
pub open spec fn maps_root_to(b: Seq<u8>, id: u32) -> bool {
    exists|digits: Seq<char>| #[trigger]
        crate::text::is_digits(digits) && crate::text::digits_value(digits) == id && b
            == vstd::utf8::encode_utf8("0 "@ + digits + " 1\n"@)
}

/// A child's steps are exactly those that its limits, its leaf and its isolation call
/// for, each once and in order. It dies with its supervisor. Whether or not it is
/// isolated, it is capped by each limit that is given, and joins its leaf if it has
/// one. If it is isolated, it then enters its namespaces, where root stands for the
/// user and the group it had and no other, keeps its mounts to itself, and sees an
/// empty directory in place of the one that is to be hidden.
pub proof fn children_are_confined_as_asked(
    s: Sandbox,
    uid: u32,
    gid: u32,
    steps: Vec<SandboxStep>,
)
    requires
        call_ensures(Sandbox::apply, (s, uid, gid), steps),
    ensures
        ({
            let v = steps@;
            let cpu = 1 + once(s.memory is Some);
            let join = cpu + once(s.cpu is Some);
            let ns = join + once(s.join_cgroup);
            &&& v.len() == ns + (if s.isolate {
                5 + once(s.store_dir is Some)
            } else {
                0
            })
            &&& v[0] is DieWithParent
            &&& s.memory matches Some(n) ==> v[1] == SandboxStep::CapAddressSpace(n)
            &&& s.cpu matches Some(n) ==> v[cpu] == SandboxStep::CapCpu(n)
            &&& s.join_cgroup ==> v[join] is JoinCgroup
            &&& s.isolate ==> {
                &&& v[ns] is Unshare
                &&& v[ns + 1] is SetGroups
                &&& v[ns + 1]->SetGroups_0@ == vstd::utf8::encode_utf8("deny"@)
                &&& v[ns + 2] is UidMap
                &&& maps_root_to(v[ns + 2]->UidMap_0@, uid)
                &&& v[ns + 3] is GidMap
                &&& maps_root_to(v[ns + 3]->GidMap_0@, gid)
                &&& v[ns + 4] is PrivateMounts
                &&& s.store_dir matches Some(d) ==> v[ns + 5] is HideDir && v[ns + 5]->HideDir_0@
                    == d@
            }
        }),
{
    let v = steps@;
    let cpu = 1 + once(s.memory is Some);
    let join = cpu + once(s.cpu is Some);
    let ns = join + once(s.join_cgroup);
    let w = crate::sandbox::sandbox_view(v);
    let n = crate::sandbox::namespace_steps(uid, gid, s.dir());
    assert(w.len() == v.len());
    assert(w[0] == v[0]@);
    if s.memory is Some {
        assert(w[1] == v[1]@);
    }
    if s.cpu is Some {
        assert(w[cpu] == v[cpu]@);
    }
    if s.join_cgroup {
        assert(w[join] == v[join]@);
    }
    if s.isolate {
        assert(w.len() == ns + n.len());
        assert(w[ns] == n[0] && w[ns] == v[ns]@);
        assert(w[ns + 1] == n[1] && w[ns + 1] == v[ns + 1]@);
        assert(w[ns + 2] == n[2] && w[ns + 2] == v[ns + 2]@);
        assert(w[ns + 3] == n[3] && w[ns + 3] == v[ns + 3]@);
        assert(w[ns + 4] == n[4] && w[ns + 4] == v[ns + 4]@);
        if s.store_dir is Some {
            assert(w[ns + 5] == n[5] && w[ns + 5] == v[ns + 5]@);
        }
        lemma_id_map(uid);
        lemma_id_map(gid);
    }
}

/// An id's map maps root to it.
proof fn lemma_id_map(id: u32)
    ensures
        maps_root_to(vstd::utf8::encode_utf8(crate::sandbox::id_map_text(id)), id),
{
    crate::text::decimal_reads_back(id as nat);
    assert(crate::text::is_digits(crate::text::decimal(id as nat)));
}

/// A cap is among a child's steps exactly if its limit is given, at exactly that
/// value, and so is the leaf that it joins and the isolation that was asked for.
pub proof fn caps_are_exactly_the_limits(
    s: Sandbox,
    uid: u32,
    gid: u32,
    steps: Vec<SandboxStep>,
    n: u64,
)
    requires
        call_ensures(Sandbox::apply, (s, uid, gid), steps),
    ensures
        steps@.contains(SandboxStep::CapAddressSpace(n)) <==> s.memory == Some(n),
        steps@.contains(SandboxStep::CapCpu(n)) <==> s.cpu == Some(n),
        steps@.contains(SandboxStep::JoinCgroup) <==> s.join_cgroup,
        steps@.contains(SandboxStep::Unshare) <==> s.isolate,
        steps@.contains(SandboxStep::PrivateMounts) <==> s.isolate,
        steps@.contains(SandboxStep::DieWithParent),
{
    children_are_confined_as_asked(s, uid, gid, steps);
    let v = steps@;
    let cpu = 1 + once(s.memory is Some);
    let join = cpu + once(s.cpu is Some);
    let ns = join + once(s.join_cgroup);
    assert(v.contains(v[0]));
    if s.memory is Some {
        assert(v.contains(v[1]));
    }
    if s.cpu is Some {
        assert(v.contains(v[cpu]));
    }
    if s.join_cgroup {
        assert(v.contains(v[join]));
    }
    if s.isolate {
        assert(v.contains(v[ns]));
        assert(v.contains(v[ns + 4]));
    }
    assert forall|i: int| 0 <= i < v.len() implies {
        &&& v[i] is CapAddressSpace ==> i == 1 && s.memory is Some
        &&& v[i] is CapCpu ==> i == cpu && s.cpu is Some
        &&& v[i] is JoinCgroup ==> s.join_cgroup
        &&& v[i] is Unshare ==> s.isolate
        &&& v[i] is PrivateMounts ==> s.isolate
    } by {
        if s.isolate && i > ns {
            assert(i == ns + 1 || i == ns + 2 || i == ns + 3 || i == ns + 4 || i == ns + 5);
        }
    }
}

/// The sandbox of a child is what the client asked for and the host has: its limits,
/// its isolation, whether it has a leaf, and, for an isolated child only, where the
/// store lies.
pub proof fn sandboxes_are_what_was_asked_for(
    spec: Spec,
    joined: bool,
    store: Option<&Vec<u8>>,
    a: Sandbox,
    b: Sandbox,
    dir: Option<Vec<u8>>,
)
    requires
        call_ensures(Sandbox::for_child, (&spec, joined, store), a),
        call_ensures(Sandbox::new, (&spec.limits, spec.isolate, joined, store), b),
        call_ensures(crate::sandbox::store_hide_dir, (store,), dir),
    ensures
        a.memory == spec.limits.memory,
        a.cpu == spec.limits.cpu,
        a.join_cgroup == joined,
        a.isolate == spec.isolate,
        b.memory == spec.limits.memory,
        b.cpu == spec.limits.cpu,
        b.join_cgroup == joined,
        b.isolate == spec.isolate,
        !spec.isolate ==> a.store_dir is None && b.store_dir is None,
        spec.isolate ==> (a.store_dir is Some <==> dir is Some) && (b.store_dir is Some <==> dir
            is Some),
        spec.isolate && dir is Some ==> a.store_dir->0@ == dir->0@ && b.store_dir->0@ == dir->0@,
{
}

/// The directory that is hidden is the one that the store lies in: the store's path
/// is that directory's, a slash and a name without one. The root itself lies in none,
/// and a path that holds a zero byte cannot be hidden.
pub proof fn the_stores_directory_is_hidden(store: Vec<u8>, r: Option<Vec<u8>>)
    requires
        store@.len() > 0,
        store@[0] == 47,
        call_ensures(crate::sandbox::store_hide_dir, (Some(&store),), r),
    ensures
        r matches Some(d) ==> {
            &&& !d@.contains(0u8)
            &&& exists|name: Seq<u8>|
                !(#[trigger] name.contains(47u8)) && (store@ == d@ + seq![47u8] + name || (d@ == seq![47u8]
                    && store@ == d@ + name))
        },
        store@.len() == 1 ==> r is None,
        store@.len() > 1 && !store@.contains(0u8) ==> r is Some,
{
    let p = store@;
    if p.len() > 1 {
        let k = lemma_last_slash(p);
        let name = p.skip(k + 1);
        assert(!name.contains(47u8)) by {
            if name.contains(47u8) {
                let i = choose|i: int| 0 <= i < name.len() && name[i] == 47u8;
                assert(p[k + 1 + i] == 47u8);
            }
        }
        let d = if k <= 0 {
            seq![47u8]
        } else {
            p.take(k)
        };
        if k > 0 {
            assert(p =~= d + seq![47u8] + name);
        } else {
            assert(p =~= d + name);
        }
        if !p.contains(0u8) && d.contains(0u8) {
            let i = choose|i: int| 0 <= i < d.len() && d[i] == 0u8;
            assert(p[i] == 0u8);
        }
    }
}

/// Where the last slash of a path is.
proof fn lemma_last_slash(p: Seq<u8>) -> (k: int)
    requires
        p.len() > 0,
        p[0] == 47,
    ensures
        k == crate::sandbox::last_slash(p),
        0 <= k < p.len(),
        p[k] == 47,
        forall|i: int| k < i < p.len() ==> p[i] != 47,
    decreases p.len(),
{
    if p.last() == 47 {
        p.len() - 1
    } else {
        let q = p.drop_last();
        let k = lemma_last_slash(q);
        assert forall|i: int| k < i < p.len() implies p[i] != 47 by {
            if i < q.len() {
                assert(q[i] == p[i]);
            }
        }
        k
    }
}

/// A store that is nowhere needs no hiding.
pub proof fn no_store_is_hidden(r: Option<Vec<u8>>)
    requires
        call_ensures(crate::sandbox::store_hide_dir, (None::<&Vec<u8>>,), r),
    ensures
        r is None,
{
}

/// A namespace's root stands for one id outside, which is the one given.
pub proof fn id_maps_map_one_id(id: u32, b: Vec<u8>)
    requires
        call_ensures(crate::sandbox::id_map, (id,), b),
    ensures
        maps_root_to(b@, id),
{
    lemma_id_map(id);
}

/// Whether this is the directory of `handle` in the group at `group`.
pub open spec fn is_leaf(dir: Seq<char>, group: Seq<char>, handle: Handle) -> bool {
    &&& dir.len() > group.len() + 1
    &&& dir.take(group.len() as int) == group
    &&& dir[group.len() as int] == '/'
    &&& crate::text::is_digits(dir.skip((group.len() + 1) as int))
    &&& crate::text::digits_value(dir.skip((group.len() + 1) as int)) == handle
}

/// What `leaf_dir` gives is the leaf of the handle.
proof fn lemma_leaf(group: Seq<char>, handle: Handle)
    ensures
        is_leaf(crate::cgroup::leaf_dir(group, handle), group, handle),
{
    let dir = crate::cgroup::leaf_dir(group, handle);
    crate::text::decimal_reads_back(handle as nat);
    assert(dir.take(group.len() as int) =~= group);
    assert(dir.skip((group.len() + 1) as int) =~= crate::text::decimal(handle as nat));
}

/// Each child has a directory of its own in the group, and in it the files that cap,
/// count and kill it and through which it is joined.
pub proof fn leaves_hold_one_child(
    c: Cgroups,
    handle: Handle,
    other: Handle,
    limits: Limits,
    dir: String,
    elsewhere: String,
    p: LeafPlan,
    files: (String, String),
    kill: Step,
    gone: Vec<Step>,
)
    requires
        call_ensures(Cgroups::leaf, (&c, handle), dir),
        call_ensures(Cgroups::leaf, (&c, other), elsewhere),
        call_ensures(Cgroups::create_leaf, (&c, handle, &limits), p),
        call_ensures(Cgroups::usage_files, (&c, handle), files),
        call_ensures(Cgroups::kill, (&c, handle), kill),
        call_ensures(Cgroups::remove, (&c, handle), gone),
    ensures
        is_leaf(dir@, c@, handle),
        dir@ == elsewhere@ ==> handle == other,
        p.dir@ == dir@,
        p.procs@ == dir@ + "/cgroup.procs"@,
        files.0@ == dir@ + "/memory.current"@,
        files.1@ == dir@ + "/cpu.stat"@,
        kill is Write,
        kill->Write_path@ == dir@ + "/cgroup.kill"@,
        kill->text@ == "1"@,
        gone@.len() == 2,
        gone@[0]@ == kill@,
        gone@[1] is RemoveDir,
        gone@[1]->RemoveDir_path@ == dir@,
        p.caps@.len() == once(limits.memory is Some) + once(limits.pids is Some),
        limits.memory matches Some(n) ==> crate::laws::table::caps_file(
            p.caps@[0],
            dir@ + "/memory.max"@,
            n,
        ),
        limits.pids matches Some(n) ==> crate::laws::table::caps_file(
            p.caps@.last(),
            dir@ + "/pids.max"@,
            n,
        ),
{
    lemma_leaf(c@, handle);
    if dir@ == elsewhere@ {
        crate::cgroup::leaves_are_distinct(c@, handle, other);
    }
    let d = dir@;
    reveal_strlit("/cgroup.procs");
    reveal_strlit("cgroup.procs");
    reveal_strlit("/memory.current");
    reveal_strlit("memory.current");
    reveal_strlit("/cpu.stat");
    reveal_strlit("cpu.stat");
    reveal_strlit("/cgroup.kill");
    reveal_strlit("cgroup.kill");
    reveal_strlit("/memory.max");
    reveal_strlit("memory.max");
    reveal_strlit("/pids.max");
    reveal_strlit("pids.max");
    assert(crate::cgroup::joined(d, "cgroup.procs"@) =~= d + "/cgroup.procs"@);
    assert(crate::cgroup::joined(d, "memory.current"@) =~= d + "/memory.current"@);
    assert(crate::cgroup::joined(d, "cpu.stat"@) =~= d + "/cpu.stat"@);
    assert(crate::cgroup::joined(d, "cgroup.kill"@) =~= d + "/cgroup.kill"@);
    assert(crate::cgroup::joined(d, "memory.max"@) =~= d + "/memory.max"@);
    assert(crate::cgroup::joined(d, "pids.max"@) =~= d + "/pids.max"@);
    let g = crate::cgroup::steps_view(gone@);
    assert(g.len() == 2);
    assert(g[0] == gone@[0]@ && g[1] == gone@[1]@);
    let sv = crate::cgroup::steps_view(p.caps@);
    let cw = crate::cgroup::cap_writes(d, limits);
    assert(sv.len() == cw.len());
    if let Some(n) = limits.memory {
        assert(sv[0] == cw[0] && sv[0] == p.caps@[0]@);
        crate::text::decimal_reads_back(n as nat);
    }
    if let Some(n) = limits.pids {
        assert(sv.last() == cw.last() && sv.last() == p.caps@.last()@);
        crate::text::decimal_reads_back(n as nat);
    }
}

/// The group is made in the first directory that grants the memory controller, under
/// a name of its own; if none does there are no groups.
pub proof fn groups_need_the_memory_controller(
    dirs: Vec<String>,
    controls: Vec<String>,
    r: Option<Cgroups>,
    i: int,
)
    requires
        dirs@.len() == controls@.len(),
        call_ensures(Cgroups::detect, (&dirs, &controls), r),
        0 <= i < dirs@.len(),
        forall|j: int|
            0 <= j < i ==> !#[trigger] crate::text::has_word(controls@[j]@, "memory"@),
    ensures
        crate::text::has_word(controls@[i]@, "memory"@) ==> r is Some && r->0@ == dirs@[i]@
            + "/p2p-telemetry"@,
        i == dirs@.len() - 1 && !crate::text::has_word(controls@[i]@, "memory"@) ==> r is None,
{
    reveal_strlit("/p2p-telemetry");
    reveal_strlit("p2p-telemetry");
    if crate::text::has_word(controls@[i]@, "memory"@) {
        assert(r is Some);
        let k = choose|k: int|
            0 <= k < dirs@.len() && #[trigger] crate::text::has_word(controls@[k]@, "memory"@)
                && r->0@ == crate::cgroup::joined(dirs@[k]@, crate::cgroup::GROUP@) && forall|
                j: int,
            |
                0 <= j < k ==> !#[trigger] crate::text::has_word(controls@[j]@, "memory"@);
        assert(k == i);
        assert(crate::cgroup::joined(dirs@[i]@, crate::cgroup::GROUP@) =~= dirs@[i]@
            + "/p2p-telemetry"@);
    }
}

/// Taking the group down kills what is in each leaf, removes the leaf, and removes the
/// group last. Setting it up does the same to what was left over, then makes the group
/// and passes the memory and the process controllers on to its leaves.
pub proof fn groups_are_swept_and_made(
    c: Cgroups,
    leaves: Vec<String>,
    down: Vec<Step>,
    up: Vec<Step>,
    i: int,
)
    requires
        call_ensures(Cgroups::shutdown, (&c, &leaves), down),
        call_ensures(Cgroups::setup, (&c, &leaves), up),
        0 <= i < leaves@.len(),
    ensures
        down@.len() == 2 * leaves@.len() + 1,
        down@[2 * i] is Write,
        down@[2 * i]->Write_path@ == leaves@[i]@ + "/cgroup.kill"@,
        down@[2 * i]->text@ == "1"@,
        down@[2 * i + 1] is RemoveDir,
        down@[2 * i + 1]->RemoveDir_path@ == leaves@[i]@,
        down@.last() is RemoveDir,
        down@.last()->RemoveDir_path@ == c@,
        up@.len() == down@.len() + 2,
        up@[2 * i]@ == down@[2 * i]@,
        up@[2 * i + 1]@ == down@[2 * i + 1]@,
        up@[up@.len() - 3]@ == down@.last()@,
        up@[up@.len() - 2] is CreateDir,
        up@[up@.len() - 2]->CreateDir_path@ == c@,
        up@.last() is Write,
        up@.last()->Write_path@ == c@ + "/cgroup.subtree_control"@,
        up@.last()->text@ == "+memory +pids"@,
{
    let all = crate::cgroup::strings_view(leaves@);
    crate::cgroup::shutdown_reaches_every_leaf(c@, all, i);
    let d = crate::cgroup::steps_view(down@);
    let u = crate::cgroup::steps_view(up@);
    assert(all[i] == leaves@[i]@);
    assert(d.len() == down@.len() && u.len() == up@.len());
    assert(u.len() == d.len() + 2);
    let n = d.len() as int;
    assert(d[2 * i] == down@[2 * i]@ && d[2 * i + 1] == down@[2 * i + 1]@);
    assert(d.last() == d[n - 1] && d[n - 1] == down@[n - 1]@);
    assert(u[2 * i] == up@[2 * i]@ && u[2 * i] == d[2 * i]);
    assert(u[2 * i + 1] == up@[2 * i + 1]@ && u[2 * i + 1] == d[2 * i + 1]);
    assert(u[n - 1] == up@[n - 1]@ && u[n - 1] == d[n - 1]);
    assert(u[n] == up@[n]@ && u[n + 1] == up@[n + 1]@);
    reveal_strlit("/cgroup.kill");
    reveal_strlit("cgroup.kill");
    reveal_strlit("/cgroup.subtree_control");
    reveal_strlit("cgroup.subtree_control");
    assert(crate::cgroup::joined(leaves@[i]@, "cgroup.kill"@) =~= leaves@[i]@ + "/cgroup.kill"@);
    assert(crate::cgroup::joined(c@, "cgroup.subtree_control"@) =~= c@
        + "/cgroup.subtree_control"@);
}

/// A group without leaves is just removed, or removed and made anew.
pub proof fn empty_groups_are_removed(
    c: Cgroups,
    leaves: Vec<String>,
    down: Vec<Step>,
    up: Vec<Step>,
)
    requires
        leaves@.len() == 0,
        call_ensures(Cgroups::shutdown, (&c, &leaves), down),
        call_ensures(Cgroups::setup, (&c, &leaves), up),
    ensures
        down@.len() == 1,
        down@[0] is RemoveDir,
        down@[0]->RemoveDir_path@ == c@,
        up@.len() == 3,
        up@[0]@ == down@[0]@,
        up@[1] is CreateDir,
        up@[1]->CreateDir_path@ == c@,
        up@[2] is Write,
        up@[2]->Write_path@ == c@ + "/cgroup.subtree_control"@,
        up@[2]->text@ == "+memory +pids"@,
{
    let d = crate::cgroup::steps_view(down@);
    let u = crate::cgroup::steps_view(up@);
    assert(d.len() == down@.len() && u.len() == up@.len());
    assert(d.len() == 1 && u.len() == 3);
    assert(d[0] == down@[0]@);
    assert(u[0] == up@[0]@ && u[1] == up@[1]@ && u[2] == up@[2]@);
    reveal_strlit("/cgroup.subtree_control");
    reveal_strlit("cgroup.subtree_control");
    assert(crate::cgroup::joined(c@, "cgroup.subtree_control"@) =~= c@
        + "/cgroup.subtree_control"@);
}

/// Without the group, or without its controllers, there are no groups; in the latter
/// case the group goes again. A leftover that stays is no obstacle.
pub proof fn failed_setups_are_given_up(c: Cgroups, step: Step, r: SetupFailure)
    requires
        call_ensures(Cgroups::setup_failed, (&c, &step), r),
    ensures
        r is GiveUp <==> step is CreateDir,
        r is Undo <==> step is Write && step->Write_path@ == c@ + "/cgroup.subtree_control"@,
        r matches SetupFailure::Undo(u) ==> u is RemoveDir && u->RemoveDir_path@ == c@,
{
    reveal_strlit("/cgroup.subtree_control");
    reveal_strlit("cgroup.subtree_control");
    assert(crate::cgroup::joined(c@, "cgroup.subtree_control"@) =~= c@
        + "/cgroup.subtree_control"@);
}

/// A directory is tried fifty times, ten milliseconds apart, unless it goes before.
pub proof fn removals_are_tried_fifty_times(tries: u32, gone: bool, r: Option<Duration>)
    requires
        call_ensures(crate::cgroup::removal_wait, (tries, gone), r),
    ensures
        r is Some <==> !gone && tries < 50,
        r matches Some(d) ==> d.nanos == 10_000_000,
{
}

/// The usage of a leaf is the number in its memory file, and the number behind
/// `usage_usec` in the first line of its statistics that has one.
pub proof fn usages_are_read(
    mem: &str,
    stat: &str,
    m: u64,
    i: int,
    n: u64,
    r: Option<Usage>,
)
    requires
        call_ensures(Cgroups::usage, (Some(mem), Some(stat)), r),
        crate::text::parsed_u64(crate::text::trimmed(mem@)) == Some(m),
        0 <= i < crate::text::lines(stat@).len(),
        tells_usec(crate::text::lines(stat@)[i], n),
        forall|j: int, k: u64|
            0 <= j < i ==> !(#[trigger] tells_usec(crate::text::lines(stat@)[j], k)),
    ensures
        r is Some,
        r->0.mem_bytes == m,
        r->0.cpu_usec == n,
{
    lemma_first_usec(crate::text::lines(stat@), i, n);
}

/// Whether a line tells that `n` microseconds were used.
pub open spec fn tells_usec(line: Seq<char>, n: u64) -> bool {
    exists|rest: Seq<char>| #[trigger]
        crate::text::parsed_u64(crate::text::trimmed(rest)) == Some(n) && line == "usage_usec "@
            + rest
}

/// A line that tells how much was used is read so.
proof fn lemma_line_usec(line: Seq<char>)
    ensures
        forall|n: u64| #[trigger]
            tells_usec(line, n) <==> crate::cgroup::line_usec(line) == Some(n),
{
    let key = "usage_usec "@;
    let k = key.len() as int;
    assert forall|n: u64| #[trigger]
        tells_usec(line, n) <==> crate::cgroup::line_usec(line) == Some(n) by {
        if tells_usec(line, n) {
            let rest = choose|rest: Seq<char>| #[trigger]
                crate::text::parsed_u64(crate::text::trimmed(rest)) == Some(n) && line == key
                    + rest;
            assert(line.take(k) =~= key);
            assert(line.skip(k) =~= rest);
        }
        if crate::cgroup::line_usec(line) == Some(n) {
            let rest = line.skip(k);
            assert(line =~= key + rest);
            assert(crate::text::parsed_u64(crate::text::trimmed(rest)) == Some(n));
        }
    }
}

/// The first line that tells it is the one that counts.
proof fn lemma_first_usec(ls: Seq<Seq<char>>, i: int, n: u64)
    requires
        0 <= i < ls.len(),
        tells_usec(ls[i], n),
        forall|j: int, k: u64| 0 <= j < i ==> !(#[trigger] tells_usec(ls[j], k)),
    ensures
        crate::cgroup::first_usec(ls) == Some(n),
    decreases ls.len(),
{
    lemma_line_usec(ls[0]);
    if i > 0 {
        assert forall|k: u64| !tells_usec(ls[0], k) by {}
        if let Some(k) = crate::cgroup::line_usec(ls[0]) {
            assert(tells_usec(ls[0], k));
        }
        let rest = ls.drop_first();
        assert forall|j: int, k: u64| 0 <= j < i - 1 implies !(#[trigger] tells_usec(rest[j], k)) by {
            assert(rest[j] == ls[j + 1]);
        }
        assert(rest[i - 1] == ls[i]);
        lemma_first_usec(rest, i - 1, n);
    }
}

/// Where a file is missing, or holds no number, nothing is told.
pub proof fn missing_usages_are_not_told(
    mem: Option<&str>,
    stat: Option<&str>,
    r: Option<Usage>,
)
    requires
        call_ensures(Cgroups::usage, (mem, stat), r),
    ensures
        mem is None || stat is None ==> r is None,
        mem matches Some(t) && crate::text::parsed_u64(crate::text::trimmed(t@)) is None ==> r
            is None,
        stat matches Some(t) && (forall|j: int, k: u64|
            0 <= j < crate::text::lines(t@).len() ==> !(
            #[trigger] tells_usec(crate::text::lines(t@)[j], k))) ==> r is None,
{
    if let Some(t) = stat {
        let ls = crate::text::lines(t@);
        if forall|j: int, k: u64| 0 <= j < ls.len() ==> !(#[trigger] tells_usec(ls[j], k)) {
            lemma_no_usec(ls);
        }
    }
}

/// Where no line tells it, nothing is read.
proof fn lemma_no_usec(ls: Seq<Seq<char>>)
    requires
        forall|j: int, k: u64| 0 <= j < ls.len() ==> !(#[trigger] tells_usec(ls[j], k)),
    ensures
        crate::cgroup::first_usec(ls) is None,
    decreases ls.len(),
{
    if ls.len() > 0 {
        lemma_line_usec(ls[0]);
        if let Some(k) = crate::cgroup::line_usec(ls[0]) {
            assert(tells_usec(ls[0], k));
        }
        let rest = ls.drop_first();
        assert forall|j: int, k: u64| 0 <= j < rest.len() implies !(
        #[trigger] tells_usec(rest[j], k)) by {
            assert(rest[j] == ls[j + 1]);
        }
        lemma_no_usec(rest);
    }
}

/// Whether this is an ordinary name along a path: not empty, not a dot, and without a
/// slash or white space.
pub open spec fn plain_name(name: Seq<char>) -> bool {
    &&& name.len() > 0
    &&& name != seq!['.']
    &&& forall|i: int|
        0 <= i < name.len() ==> #[trigger] name[i] != '/' && !crate::text::white_space(name[i])
}

/// The path along these names, each behind a slash.
pub open spec fn slashed(names: Seq<Seq<char>>) -> Seq<char>
    decreases names.len(),
{
    if names.len() == 0 {
        Seq::empty()
    } else {
        slashed(names.drop_last()) + seq!['/'] + names.last()
    }
}

/// A process whose first line tells that it is in the group `/a/b/c` may make its
/// children's group in `/a/b`, in `/a` or at the top of the file system, the nearest
/// first.
pub proof fn candidates_lie_above_the_own_group(
    text: &str,
    head: Seq<char>,
    names: Seq<Seq<char>>,
    tail: Seq<char>,
    dirs: Vec<String>,
)
    requires
        names.len() > 0,
        forall|i: int| 0 <= i < names.len() ==> plain_name(#[trigger] names[i]),
        forall|i: int| 0 <= i < head.len() ==> #[trigger] head[i] != ':' && head[i] != '\n',
        tail.len() > 0 ==> tail[0] == '\n',
        text@ == head + "::"@ + slashed(names) + tail,
        call_ensures(crate::cgroup::candidate_dirs, (text,), dirs),
    ensures
        dirs@.len() == names.len(),
        forall|i: int|
            0 <= i < names.len() ==> (#[trigger] dirs@[i])@ == "/sys/fs/cgroup"@ + slashed(
                names.take(names.len() - 1 - i),
            ),
{
    let path = slashed(names);
    lemma_slashed(names);
    reveal_strlit("::");
    let line = head + "::"@ + path;
    assert(text@ =~= line + tail);
    let n = line.len() as int;
    assert forall|j: int| 0 <= j < n implies text@[j] != '\n' by {
        if j < head.len() {
            assert(text@[j] == head[j]);
        } else if j >= head.len() + 2 {
            assert(text@[j] == path[j - head.len() - 2]);
        }
    }
    crate::text::lemma_find_char(text@, '\n', n);
    assert(text@.take(n) =~= line);
    assert(tail.len() == 0 ==> text@ =~= line);
    let ls = crate::text::lines(text@);
    assert(line.last() == path.last());
    assert(path.last() == path[path.len() - 1]);
    assert(crate::text::without_cr(line) == line);
    assert(ls.len() > 0 && ls[0] == line);
    lemma_after_colons(head, path);
    assert(crate::cgroup::after_colons(line) == Some(path));
    assert(crate::text::trim_start(path) == path);
    assert(crate::text::trim_end(path) == path);
    let below = path.skip(1);
    lemma_components(names);
    let mount = crate::cgroup::components(crate::cgroup::MOUNT@);
    let own = mount + names;
    assert(below[0] != '/') by {
        lemma_slashed_head(names);
        assert(below[0] == names[0][0]);
    }
    assert(crate::cgroup::own_group(text@) == Some(own));
    lemma_above(names);
    let up = crate::cgroup::above(own);
    let sv = crate::cgroup::strings_view(dirs@);
    assert(sv.len() == dirs@.len());
    assert forall|i: int| 0 <= i < names.len() implies (#[trigger] dirs@[i])@ == "/sys/fs/cgroup"@
        + slashed(names.take(names.len() - 1 - i)) by {
        assert(sv[i] == dirs@[i]@);
    }
}

/// What follows the first two colons.
proof fn lemma_after_colons(head: Seq<char>, rest: Seq<char>)
    requires
        forall|i: int| 0 <= i < head.len() ==> #[trigger] head[i] != ':',
    ensures
        crate::cgroup::after_colons(head + "::"@ + rest) == Some(rest),
    decreases head.len(),
{
    reveal_strlit("::");
    let s = head + "::"@ + rest;
    if head.len() == 0 {
        assert(s[0] == ':' && s[1] == ':');
        assert(s.skip(2) =~= rest);
    } else {
        let h = head.drop_first();
        assert forall|i: int| 0 <= i < h.len() implies #[trigger] h[i] != ':' by {
            assert(h[i] == head[i + 1]);
        }
        assert(s[0] == head[0]);
        assert(s.drop_first() =~= h + "::"@ + rest);
        lemma_after_colons(h, rest);
    }
}

/// Every candidate lies at or below the top of the file system, whatever the process
/// is told of its own group; without two colons it is told of none.
pub proof fn candidates_stay_in_the_file_system(text: &str, dirs: Vec<String>, i: int)
    requires
        call_ensures(crate::cgroup::candidate_dirs, (text,), dirs),
    ensures
        0 <= i < dirs@.len() ==> dirs@[i]@.len() >= 14 && dirs@[i]@.take(14) == "/sys/fs/cgroup"@,
        (forall|k: int|
            0 <= k < text@.len() - 1 ==> !((#[trigger] text@[k]) == ':' && text@[k + 1] == ':'))
            ==> dirs@.len() == 0,
{
    reveal_strlit("/sys/fs/cgroup");
    let sv = crate::cgroup::strings_view(dirs@);
    assert(sv.len() == dirs@.len());
    if 0 <= i < dirs@.len() {
        assert(sv[i] == dirs@[i]@);
        crate::cgroup::candidates_stay_below_the_mount(
            crate::cgroup::own_group(text@)->0,
            i,
        );
    }
    if forall|k: int|
        0 <= k < text@.len() - 1 ==> !((#[trigger] text@[k]) == ':' && text@[k + 1] == ':') {
        let ls = crate::text::lines(text@);
        if ls.len() > 0 {
            crate::laws::texts::lemma_found(text@, '\n');
            let line = ls[0];
            assert forall|k: int| 0 <= k < line.len() - 1 implies !((#[trigger] line[k]) == ':'
                && line[k + 1] == ':') by {
                assert(line[k] == text@[k] && line[k + 1] == text@[k + 1]);
            }
            lemma_no_colons(line);
        }
    }
}

/// Where there are no two colons nothing follows them.
proof fn lemma_no_colons(s: Seq<char>)
    requires
        forall|k: int| 0 <= k < s.len() - 1 ==> !((#[trigger] s[k]) == ':' && s[k + 1] == ':'),
    ensures
        crate::cgroup::after_colons(s) is None,
    decreases s.len(),
{
    if s.len() >= 2 {
        let t = s.drop_first();
        assert(!(s[0] == ':' && s[1] == ':'));
        assert forall|k: int| 0 <= k < t.len() - 1 implies !((#[trigger] t[k]) == ':' && t[k + 1]
            == ':') by {
            assert(t[k] == s[k + 1] && t[k + 1] == s[k + 2]);
        }
        lemma_no_colons(t);
    }
}

/// A path begins with a slash and its first name.
proof fn lemma_slashed_head(names: Seq<Seq<char>>)
    requires
        names.len() > 0,
    ensures
        slashed(names) == seq!['/'] + names[0] + slashed(names.drop_first()),
    decreases names.len(),
{
    if names.len() == 1 {
        assert(slashed(names.drop_last()) =~= Seq::<char>::empty());
        assert(slashed(names.drop_first()) =~= Seq::<char>::empty());
        assert(slashed(names) =~= seq!['/'] + names[0] + slashed(names.drop_first()));
    } else {
        let up = names.drop_last();
        lemma_slashed_head(up);
        assert(up.drop_first() =~= names.drop_first().drop_last());
        assert(names.drop_first().last() == names.last());
        assert(slashed(names) =~= seq!['/'] + names[0] + slashed(names.drop_first()));
    }
}

/// The characters of a path of ordinary names.
proof fn lemma_slashed(names: Seq<Seq<char>>)
    requires
        forall|i: int| 0 <= i < names.len() ==> plain_name(#[trigger] names[i]),
    ensures
        forall|i: int|
            0 <= i < slashed(names).len() ==> !crate::text::white_space(#[trigger] slashed(names)[i])
                && slashed(names)[i] != '\n' && slashed(names)[i] != '\r',
        names.len() > 0 ==> slashed(names).len() > 1 && slashed(names)[0] == '/'
            && slashed(names).last() != '/',
    decreases names.len(),
{
    if names.len() > 0 {
        let up = names.drop_last();
        assert forall|i: int| 0 <= i < up.len() implies plain_name(#[trigger] up[i]) by {
            assert(up[i] == names[i]);
        }
        lemma_slashed(up);
        let n = names[names.len() - 1];
        assert(plain_name(n));
        let s = slashed(names);
        let k = slashed(up).len() as int;
        assert forall|i: int| 0 <= i < s.len() implies !crate::text::white_space(#[trigger] s[i])
            && s[i] != '\n' && s[i] != '\r' by {
            if i < k {
                assert(s[i] == slashed(up)[i]);
            } else if i > k {
                assert(s[i] == n[i - k - 1]);
            }
        }
        assert(s.last() == n[n.len() - 1]);
        if up.len() > 0 {
            assert(s[0] == slashed(up)[0]);
        }
    }
}

/// The names along a path of ordinary names are these.
proof fn lemma_components(names: Seq<Seq<char>>)
    requires
        names.len() > 0,
        forall|i: int| 0 <= i < names.len() ==> plain_name(#[trigger] names[i]),
    ensures
        crate::cgroup::components(slashed(names).skip(1)) == names,
    decreases names.len(),
{
    lemma_slashed_head(names);
    let first = names[0];
    let rest = names.drop_first();
    let s = slashed(names).skip(1);
    assert(plain_name(first));
    assert(s =~= first + slashed(rest));
    if rest.len() == 0 {
        assert(slashed(rest) =~= Seq::<char>::empty());
        assert(s =~= first);
        crate::text::lemma_find_char(s, '/', s.len() as int);
        assert(crate::cgroup::components(s) =~= seq![first]);
        assert(names =~= seq![first]);
    } else {
        assert forall|i: int| 0 <= i < rest.len() implies plain_name(#[trigger] rest[i]) by {
            assert(rest[i] == names[i + 1]);
        }
        lemma_slashed_head(rest);
        let k = first.len() as int;
        assert(s[k] == '/');
        crate::text::lemma_find_char(s, '/', k);
        assert(s.take(k) =~= first);
        assert(s.skip(k + 1) =~= slashed(rest).skip(1));
        lemma_components(rest);
        assert(crate::cgroup::components(s) == seq![first] + crate::cgroup::components(
            s.skip(k + 1),
        ));
        assert(names =~= seq![first] + rest);
    }
}

/// The directories above a group, and their paths.
proof fn lemma_above(names: Seq<Seq<char>>)
    ensures
        ({
            let up = crate::cgroup::above(
                crate::cgroup::components(crate::cgroup::MOUNT@) + names,
            );
            &&& up.len() == names.len()
            &&& forall|i: int|
                0 <= i < names.len() ==> #[trigger] up[i] == "/sys/fs/cgroup"@ + slashed(
                    names.take(names.len() - 1 - i),
                )
        }),
    decreases names.len(),
{
    let mount = crate::cgroup::components(crate::cgroup::MOUNT@);
    let own = mount + names;
    let up = crate::cgroup::above(own);
    if names.len() > 0 {
        let less = names.drop_last();
        assert(own.drop_last() =~= mount + less);
        assert(own.take(crate::cgroup::mount_depth() as int) =~= mount);
        lemma_above(less);
        lemma_paths(less);
        let tail = crate::cgroup::above(mount + less);
        assert(up == seq![crate::cgroup::path_of(mount + less)] + tail);
        assert(names.take(names.len() - 1) =~= less);
        assert forall|i: int| 0 <= i < names.len() implies #[trigger] up[i] == "/sys/fs/cgroup"@
            + slashed(names.take(names.len() - 1 - i)) by {
            if i > 0 {
                assert(up[i] == tail[i - 1]);
                assert(less.take(less.len() - 1 - (i - 1)) =~= names.take(names.len() - 1 - i));
            }
        }
    }
}

/// The path along names below the mount point.
proof fn lemma_paths(names: Seq<Seq<char>>)
    ensures
        crate::cgroup::path_of(crate::cgroup::components(crate::cgroup::MOUNT@) + names)
            == "/sys/fs/cgroup"@ + slashed(names),
    decreases names.len(),
{
    let mount = crate::cgroup::components(crate::cgroup::MOUNT@);
    if names.len() == 0 {
        crate::cgroup::lemma_mount_path();
        assert(mount + names =~= mount);
        assert("/sys/fs/cgroup"@ + slashed(names) =~= "/sys/fs/cgroup"@);
    } else {
        let all = mount + names;
        assert(all.drop_last() =~= mount + names.drop_last());
        assert(all.last() == names.last());
        lemma_paths(names.drop_last());
        assert(crate::cgroup::path_of(all) =~= "/sys/fs/cgroup"@ + slashed(names));
    }
}

} // verus!
