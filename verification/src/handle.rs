//! Process handles and process/module discovery, specified against an
//! abstract model of the host OS process API.
//!
//! A [`ProcessSystem`] is the OS boundary: it enumerates process
//! identifiers, resolves display names through short-lived query-only probe
//! handles, grants and releases process handles, and lists the modules a
//! handle's process has loaded. The decisions built on those primitives —
//! skipping the idle pseudo-process, case-insensitive name matching,
//! best-effort module resolution, handle lifecycle — live here, verified.

use vstd::prelude::*;
use crate::error::mm_error;
use crate::module::ModuleInfo;
use crate::ntapi::PROCESS_ALL_ACCESS_MEMORY;
use crate::text::{lower_of, names_equal_ci};

verus! {

/// What one probe of a loaded module resolved: its display name, if the
/// name lookup succeeded, and its base address, size and entry point, if
/// the metadata lookup succeeded.
pub struct ModuleProbe {
    pub name: Option<String>,
    pub meta: Option<(usize, usize, usize)>,
}

/// The ghost image of a probe: the name as characters, the metadata as is.
pub struct ModuleProbeSpec {
    pub name: Option<Seq<char>>,
    pub meta: Option<(usize, usize, usize)>,
}

impl View for ModuleProbe {
    type V = ModuleProbeSpec;

    open spec fn view(&self) -> ModuleProbeSpec {
        ModuleProbeSpec {
            name: match self.name {
                Some(s) => Some(s@),
                None => None,
            },
            meta: self.meta,
        }
    }
}

/// The abstract state of the host system: which processes run, what each
/// is named (where a name resolves at all), and which module probes each
/// granted handle's process yields.
pub struct SysModel {
    pub pids: Seq<u32>,
    pub names: Map<u32, Seq<char>>,
    pub mods: Map<int, Seq<ModuleProbeSpec>>,
}

/// The host OS process API. Every call leaves the modelled system state
/// unchanged; none promises success, since the live system can refuse any
/// request, but what a success returns is pinned to the model.
pub trait ProcessSystem: Sized {
    /// The abstract system state. The default is the empty model: a live,
    /// unverified system may leave it, since no proof is conducted about
    /// such a system; a modelled system overrides it.
    open spec fn model(&self) -> SysModel {
        SysModel { pids: Seq::empty(), names: Map::empty(), mods: Map::empty() }
    }

    /// Every name probe so far, by process identifier, in order: each
    /// `probe_name` call appends exactly one entry and no other call
    /// appends any, so which candidates a lookup probed is stated in its
    /// contract. The default is empty: a live system keeps no log, and no
    /// proof is conducted about one; a modelled system overrides it.
    open spec fn probed(&self) -> Seq<u32> {
        Seq::empty()
    }

    /// Enumerate the identifiers of all running processes; a failure
    /// carries the native error code.
    fn enum_pids(&mut self) -> (r: Result<Vec<u32>, i32>)
        ensures
            final(self).model() == old(self).model(),
            final(self).probed() == old(self).probed(),
            r matches Ok(v) ==> v@ == old(self).model().pids,
    ;

    /// Resolve one process's display name: open a query-only probe handle,
    /// read the name from its first module, close the probe. `None` when
    /// any step fails.
    fn probe_name(&mut self, pid: u32) -> (r: Option<String>)
        ensures
            final(self).model() == old(self).model(),
            final(self).probed() == old(self).probed().push(pid),
            r matches Some(s) ==> old(self).model().names.contains_key(pid) && s@ == old(
                self,
            ).model().names[pid],
    ;

    /// Request a handle to a process with the given access rights; zero
    /// when the OS refuses. A granted handle is never the invalid sentinel.
    fn open_process(&mut self, pid: u32, access: u32) -> (r: isize)
        ensures
            final(self).model() == old(self).model(),
            final(self).probed() == old(self).probed(),
            r != 0 ==> r != -1,
    ;

    /// Release one previously granted handle.
    fn close_process(&mut self, handle: isize)
        ensures
            final(self).model() == old(self).model(),
            final(self).probed() == old(self).probed(),
    ;

    /// List the modules loaded in the process a handle refers to, with
    /// whatever name and metadata resolved for each; a failure carries the
    /// native error code.
    fn list_modules(&mut self, handle: isize) -> (r: Result<Vec<ModuleProbe>, u32>)
        ensures
            final(self).model() == old(self).model(),
            final(self).probed() == old(self).probed(),
            r matches Ok(v) ==> old(self).model().mods.contains_key(handle as int) && v@.map_values(
                |p: ModuleProbe| p@,
            ) == old(self).model().mods[handle as int],
    ;
}

/// The non-zero entries among the first `n` of a process list: exactly the
/// candidates a name lookup probes, in order — the zero pseudo-process is
/// never probed.
pub open spec fn nonzero_prefix(s: Seq<u32>, n: int) -> Seq<u32>
    decreases n,
{
    if n <= 0 {
        Seq::empty()
    } else if s[n - 1] == 0 {
        nonzero_prefix(s, n - 1)
    } else {
        nonzero_prefix(s, n - 1).push(s[n - 1])
    }
}

/// A lookup found `pid` at some position of the process list after probing
/// exactly the non-zero candidates up to and including it: candidates are
/// tried in list order and the search stops at the match.
pub open spec fn probed_to_match(pids: Seq<u32>, pid: u32, before: Seq<u32>, after: Seq<u32>) -> bool {
    exists|k: int|
        0 <= k < pids.len() && pids[k] == pid && after == before + #[trigger] nonzero_prefix(
            pids,
            k + 1,
        )
}

/// A probe enumeration keeps: both the name and the metadata resolved.
pub open spec fn kept(p: ModuleProbeSpec) -> bool {
    p.name is Some && p.meta is Some
}

/// The fully resolved probes, in order: what best-effort module
/// enumeration returns, silently skipping the rest.
pub open spec fn kept_probes(ps: Seq<ModuleProbeSpec>) -> Seq<ModuleProbeSpec>
    decreases ps.len(),
{
    if ps.len() == 0 {
        Seq::empty()
    } else if kept(ps.last()) {
        kept_probes(ps.drop_last()).push(ps.last())
    } else {
        kept_probes(ps.drop_last())
    }
}

/// The enumerated modules match the kept probes field by field.
pub open spec fn modules_match(v: Seq<ModuleInfo>, ks: Seq<ModuleProbeSpec>) -> bool {
    v.len() == ks.len() && forall|q: int|
        0 <= q < v.len() ==> (#[trigger] ks[q].name matches Some(nm) && v[q].name@ == nm) && (
        ks[q].meta matches Some(mt) && v[q].addy == mt.0 && v[q].size == mt.1 && v[q].entry_point
            == mt.2)
}

/// A kept probe's resolved name case-folds to `folded`.
pub open spec fn probe_folds_to(p: ModuleProbeSpec, folded: Seq<char>) -> bool {
    p.name matches Some(nm) && lower_of(nm) == folded
}

/// The base address of the first kept probe whose name folds to `folded`,
/// and `None` exactly when no kept probe's name does: what a module-base
/// lookup returns once enumeration has succeeded.
pub open spec fn module_base_of(ks: Seq<ModuleProbeSpec>, folded: Seq<char>) -> Option<usize>
    decreases ks.len(),
{
    if ks.len() == 0 {
        None
    } else if probe_folds_to(ks[0], folded) {
        match ks[0].meta {
            Some(mt) => Some(mt.0),
            None => None,
        }
    } else {
        module_base_of(ks.drop_first(), folded)
    }
}

proof fn lemma_module_base_of_at(ks: Seq<ModuleProbeSpec>, folded: Seq<char>, i: int)
    requires
        0 <= i < ks.len(),
        forall|j: int| 0 <= j < i ==> !probe_folds_to(#[trigger] ks[j], folded),
        probe_folds_to(ks[i], folded),
    ensures
        ks[i].meta matches Some(mt) ==> module_base_of(ks, folded) == Some(mt.0),
    decreases ks.len(),
{
    if i == 0 {
    } else {
        assert(!probe_folds_to(ks[0], folded));
        assert forall|j: int| 0 <= j < i - 1 implies !probe_folds_to(
            #[trigger] ks.drop_first()[j],
            folded,
        ) by {
            assert(ks.drop_first()[j] == ks[j + 1]);
            assert(!probe_folds_to(ks[j + 1], folded));
        }
        lemma_module_base_of_at(ks.drop_first(), folded, i - 1);
        assert(ks.drop_first()[i - 1] == ks[i]);
    }
}

proof fn lemma_module_base_of_none(ks: Seq<ModuleProbeSpec>, folded: Seq<char>)
    requires
        forall|j: int| 0 <= j < ks.len() ==> !probe_folds_to(#[trigger] ks[j], folded),
    ensures
        module_base_of(ks, folded) is None,
    decreases ks.len(),
{
    if ks.len() == 0 {
    } else {
        assert(!probe_folds_to(ks[0], folded));
        assert forall|j: int| 0 <= j < ks.drop_first().len() implies !probe_folds_to(
            #[trigger] ks.drop_first()[j],
            folded,
        ) by {
            assert(ks.drop_first()[j] == ks[j + 1]);
            assert(!probe_folds_to(ks[j + 1], folded));
        }
        lemma_module_base_of_none(ks.drop_first(), folded);
    }
}

/// One privileged reference to a target process: an opaque OS handle value
/// and the process identifier it was opened for. Immutable after a
/// successful open, released exactly once by `close`.
#[allow(non_camel_case_types)]
pub struct p_handle {
    handle: isize,
    pid: u32,
}

impl p_handle {
    pub closed spec fn spec_raw(&self) -> isize {
        self.handle
    }

    pub closed spec fn spec_pid(&self) -> u32 {
        self.pid
    }

    /// Neither null nor the invalid sentinel.
    pub open spec fn valid(&self) -> bool {
        self.spec_raw() != 0 && self.spec_raw() != -1
    }

    /// Open a handle to `pid` with the given rights bitmask; a granted
    /// handle is valid from the moment it is returned.
    pub fn open_by_pid_with_access<S: ProcessSystem>(sys: &mut S, pid: u32, access: u32) -> (r:
        Result<p_handle, mm_error>)
        ensures
            final(sys).model() == old(sys).model(),
            match r {
                Ok(h) => h.valid() && h.spec_pid() == pid,
                Err(e) => e matches mm_error::ProcessOpenFailed(_),
            },
    {
        let handle = sys.open_process(pid, access);
        if handle == 0 || handle == -1 {
            return Err(mm_error::ProcessOpenFailed("OpenProcess refused the request".to_owned()));
        }
        Ok(p_handle { handle, pid })
    }

    /// Open with the maximal rights needed for memory read/write/query.
    pub fn open_by_pid<S: ProcessSystem>(sys: &mut S, pid: u32) -> (r: Result<p_handle, mm_error>)
        ensures
            final(sys).model() == old(sys).model(),
            match r {
                Ok(h) => h.valid() && h.spec_pid() == pid,
                Err(e) => e matches mm_error::ProcessOpenFailed(_),
            },
    {
        Self::open_by_pid_with_access(sys, pid, PROCESS_ALL_ACCESS_MEMORY)
    }

    /// Find a running process by display name: enumerate all identifiers,
    /// skip the zero pseudo-process, probe each candidate's name, and match
    /// case-insensitively. A success is a non-zero enumerated identifier
    /// whose resolved name folds to the requested one.
    pub fn find_process_by_name<S: ProcessSystem>(sys: &mut S, name: &str) -> (r: Result<
        u32,
        mm_error,
    >)
        ensures
            final(sys).model() == old(sys).model(),
            match r {
                Ok(pid) => pid != 0 && old(sys).model().pids.contains(pid) && old(
                    sys,
                ).model().names.contains_key(pid) && lower_of(old(sys).model().names[pid])
                    == lower_of(name@) && probed_to_match(
                    old(sys).model().pids,
                    pid,
                    old(sys).probed(),
                    final(sys).probed(),
                ),
                Err(e) => (e matches mm_error::ProcessNotFound(n) && n@ == name@
                    && final(sys).probed() == old(sys).probed() + nonzero_prefix(
                    old(sys).model().pids,
                    old(sys).model().pids.len() as int,
                )) || (e matches mm_error::ProcessEnumFailed(_)
                    && final(sys).probed() == old(sys).probed()),
            },
    {
        let pids = match sys.enum_pids() {
            Ok(v) => v,
            Err(code) => {
                return Err(mm_error::ProcessEnumFailed(code));
            },
        };
        let mut i: usize = 0;
        proof {
            assert(sys.probed() + nonzero_prefix(pids@, 0) =~= sys.probed());
        }
        while i < pids.len()
            invariant
                sys.model() == old(sys).model(),
                pids@ == old(sys).model().pids,
                i <= pids@.len(),
                sys.probed() == old(sys).probed() + nonzero_prefix(pids@, i as int),
            decreases pids@.len() - i,
        {
            let pid = pids[i];
            if pid != 0 {
                let probe = sys.probe_name(pid);
                proof {
                    assert(nonzero_prefix(pids@, i as int + 1) =~= nonzero_prefix(
                        pids@,
                        i as int,
                    ).push(pid));
                    assert(sys.probed() =~= old(sys).probed() + nonzero_prefix(
                        pids@,
                        i as int + 1,
                    ));
                }
                match probe {
                    Some(pname) => {
                        if names_equal_ci(pname.as_str(), name) {
                            proof {
                                assert(pids@[i as int] == pid);
                                assert(probed_to_match(
                                    old(sys).model().pids,
                                    pid,
                                    old(sys).probed(),
                                    sys.probed(),
                                ));
                            }
                            return Ok(pid);
                        }
                    },
                    None => {},
                }
            } else {
                proof {
                    assert(nonzero_prefix(pids@, i as int + 1) =~= nonzero_prefix(
                        pids@,
                        i as int,
                    ));
                }
            }
            i = i + 1;
        }
        Err(mm_error::ProcessNotFound(name.to_owned()))
    }

    /// The raw OS handle value: a capability token, not a number to
    /// compute with.
    pub fn as_raw(&self) -> (r: isize)
        ensures
            r == self.spec_raw(),
    {
        self.handle
    }

    /// True exactly while the handle is neither null nor the invalid
    /// sentinel.
    pub fn is_valid(&self) -> (r: bool)
        ensures
            r == self.valid(),
    {
        self.handle != 0 && self.handle != -1
    }

    /// Release the underlying OS handle exactly once: a no-op on an
    /// already-invalid handle, and afterwards the handle is invalid, so
    /// every later module operation through it fails rather than silently
    /// succeeding.
    pub fn close<S: ProcessSystem>(&mut self, sys: &mut S)
        ensures
            final(sys).model() == old(sys).model(),
            !final(self).valid(),
    {
        if self.is_valid() {
            sys.close_process(self.handle);
        }
        self.handle = 0;
    }

    /// Enumerate the modules loaded in the target: every probe whose name
    /// and metadata both resolved becomes an entry, in order; the rest are
    /// silently skipped. Partial success is returned rather than failing
    /// the whole call.
    pub fn enumerate_modules<S: ProcessSystem>(&self, sys: &mut S) -> (r: Result<
        Vec<ModuleInfo>,
        mm_error,
    >)
        ensures
            final(sys).model() == old(sys).model(),
            !self.valid() ==> r == Err::<Vec<ModuleInfo>, mm_error>(mm_error::InvalidHandle),
            match r {
                Ok(v) => self.valid() && old(sys).model().mods.contains_key(self.spec_raw() as int)
                    && modules_match(
                    v@,
                    kept_probes(old(sys).model().mods[self.spec_raw() as int]),
                ),
                Err(e) => e matches mm_error::InvalidHandle || e
                    matches mm_error::ModuleEnumFailed(_),
            },
    {
        if !self.is_valid() {
            return Err(mm_error::InvalidHandle);
        }
        let probes = match sys.list_modules(self.handle) {
            Ok(v) => v,
            Err(code) => {
                return Err(mm_error::ModuleEnumFailed(code));
            },
        };
        let ghost pview = probes@.map_values(|p: ModuleProbe| p@);
        let mut result: Vec<ModuleInfo> = Vec::new();
        let mut i: usize = 0;
        proof {
            assert(pview.take(0) =~= Seq::<ModuleProbeSpec>::empty());
        }
        while i < probes.len()
            invariant
                i <= probes@.len(),
                sys.model() == old(sys).model(),
                self.valid(),
                old(sys).model().mods.contains_key(self.spec_raw() as int),
                pview == probes@.map_values(|p: ModuleProbe| p@),
                pview == old(sys).model().mods[self.spec_raw() as int],
                modules_match(result@, kept_probes(pview.take(i as int))),
            decreases probes@.len() - i,
        {
            let ghost prev = result@;
            let pr = &probes[i];
            if pr.name.is_some() && pr.meta.is_some() {
                let nm = pr.name.as_ref().unwrap().clone();
                let mt = pr.meta.unwrap();
                result.push(ModuleInfo { name: nm, addy: mt.0, size: mt.1, entry_point: mt.2 });
            }
            proof {
                assert(pview.take(i as int + 1).drop_last() =~= pview.take(i as int));
                assert(pview.take(i as int + 1).last() == pview[i as int]);
                if kept(pview[i as int]) {
                    assert(kept_probes(pview.take(i as int + 1)) == kept_probes(
                        pview.take(i as int),
                    ).push(pview[i as int]));
                    assert forall|q: int|
                        0 <= q < result@.len() implies (#[trigger] kept_probes(
                        pview.take(i as int + 1),
                    )[q].name matches Some(nm) && result@[q].name@ == nm) && (kept_probes(
                        pview.take(i as int + 1),
                    )[q].meta matches Some(mt) && result@[q].addy == mt.0 && result@[q].size == mt.1
                        && result@[q].entry_point == mt.2) by {
                        if q < prev.len() {
                            assert(result@[q] == prev[q]);
                        } else {
                            assert(result@[q] == result@.last());
                        }
                    }
                } else {
                    assert(kept_probes(pview.take(i as int + 1)) == kept_probes(
                        pview.take(i as int),
                    ));
                }
            }
            i = i + 1;
        }
        proof {
            assert(pview.take(probes@.len() as int) =~= pview);
        }
        Ok(result)
    }

    /// Base address of the named module, compared case-insensitively
    /// against the enumerated modules; the first fold-equal entry wins.
    #[verifier::rlimit(50)]
    #[verifier::loop_isolation(false)]
    pub fn get_module_base<S: ProcessSystem>(&self, sys: &mut S, module_name: &str) -> (r: Result<
        usize,
        mm_error,
    >)
        ensures
            final(sys).model() == old(sys).model(),
            !self.valid() ==> r == Err::<usize, mm_error>(mm_error::InvalidHandle),
            r matches Ok(addr) ==> self.valid() && old(sys).model().mods.contains_key(
                self.spec_raw() as int,
            ) && module_base_of(
                kept_probes(old(sys).model().mods[self.spec_raw() as int]),
                lower_of(module_name@),
            ) == Some(addr),
            r matches Err(e) ==> ((e matches mm_error::ModuleNotFound(n) && n@ == module_name@
                && self.valid() && old(sys).model().mods.contains_key(self.spec_raw() as int)
                && module_base_of(
                kept_probes(old(sys).model().mods[self.spec_raw() as int]),
                lower_of(module_name@),
            ) is None) || e matches mm_error::InvalidHandle || e
                matches mm_error::ModuleEnumFailed(_)),
    {
        let modules = match self.enumerate_modules(sys) {
            Ok(v) => v,
            Err(e) => {
                return Err(e);
            },
        };
        let ghost ks = kept_probes(old(sys).model().mods[self.spec_raw() as int]);
        let mut i: usize = 0;
        while i < modules.len()
            invariant
                i <= modules@.len(),
                sys.model() == old(sys).model(),
                self.valid(),
                old(sys).model().mods.contains_key(self.spec_raw() as int),
                ks == kept_probes(old(sys).model().mods[self.spec_raw() as int]),
                modules_match(modules@, ks),
                forall|j: int|
                    0 <= j < i ==> !probe_folds_to(#[trigger] ks[j], lower_of(module_name@)),
            decreases modules@.len() - i,
        {
            let m = &modules[i];
            if names_equal_ci(m.name.as_str(), module_name) {
                let addr = m.addy;
                proof {
                    assert(ks[i as int].name matches Some(nm) && modules@[i as int].name@ == nm);
                    assert(probe_folds_to(ks[i as int], lower_of(module_name@)));
                    lemma_module_base_of_at(ks, lower_of(module_name@), i as int);
                    assert(module_base_of(
                        kept_probes(old(sys).model().mods[self.spec_raw() as int]),
                        lower_of(module_name@),
                    ) == Some(addr));
                }
                return Ok(addr);
            }
            proof {
                assert(ks[i as int].name matches Some(nm) && modules@[i as int].name@ == nm);
                assert(!probe_folds_to(ks[i as int], lower_of(module_name@)));
            }
            i = i + 1;
        }
        proof {
            lemma_module_base_of_none(ks, lower_of(module_name@));
            assert(module_base_of(
                kept_probes(old(sys).model().mods[self.spec_raw() as int]),
                lower_of(module_name@),
            ) is None);
        }
        Err(mm_error::ModuleNotFound(module_name.to_owned()))
    }
}

/// Name lookup in an association list: the first entry for a pid wins.
pub open spec fn has_name(l: Seq<(u32, String)>, pid: u32) -> bool
    decreases l.len(),
{
    if l.len() == 0 {
        false
    } else if l[0].0 == pid {
        true
    } else {
        has_name(l.drop_first(), pid)
    }
}

/// The name the association list gives a pid.
pub open spec fn name_val(l: Seq<(u32, String)>, pid: u32) -> Seq<char>
    decreases l.len(),
{
    if l.len() == 0 {
        Seq::empty()
    } else if l[0].0 == pid {
        l[0].1@
    } else {
        name_val(l.drop_first(), pid)
    }
}

proof fn lemma_assoc_first(l: Seq<(u32, String)>, pid: u32, i: int)
    requires
        0 <= i < l.len(),
        l[i].0 == pid,
        forall|j: int| 0 <= j < i ==> (#[trigger] l[j]).0 != pid,
    ensures
        has_name(l, pid),
        name_val(l, pid) == l[i].1@,
    decreases l.len(),
{
    if i == 0 {
    } else {
        assert(l[0].0 != pid);
        assert forall|j: int| 0 <= j < i - 1 implies (#[trigger] l.drop_first()[j]).0 != pid by {
            assert(l[j + 1].0 != pid);
        }
        lemma_assoc_first(l.drop_first(), pid, i - 1);
    }
}

proof fn lemma_assoc_none(l: Seq<(u32, String)>, pid: u32)
    requires
        forall|j: int| 0 <= j < l.len() ==> (#[trigger] l[j]).0 != pid,
    ensures
        !has_name(l, pid),
    decreases l.len(),
{
    if l.len() == 0 {
    } else {
        assert(l[0].0 != pid);
        assert forall|j: int| 0 <= j < l.drop_first().len() implies (#[trigger] l.drop_first()[j]).0
            != pid by {
            assert(l[j + 1].0 != pid);
        }
        lemma_assoc_none(l.drop_first(), pid);
    }
}

/// The handle value the in-memory system grants for every non-zero pid.
pub const MOCK_PROCESS_HANDLE: isize = 7;

/// An in-memory [`ProcessSystem`]: a fixed process list, an association
/// list of resolvable display names, one target process whose module
/// probes are served for [`MOCK_PROCESS_HANDLE`], and a log of every name
/// probe.
pub struct MockSystem {
    pub pids: Vec<u32>,
    pub names: Vec<(u32, String)>,
    pub modules: Vec<ModuleProbe>,
    pub probed: Vec<u32>,
    pub enum_fail: Option<i32>,
}

impl ProcessSystem for MockSystem {
    open spec fn model(&self) -> SysModel {
        SysModel {
            pids: self.pids@,
            names: Map::new(
                |p: u32| has_name(self.names@, p),
                |p: u32| name_val(self.names@, p),
            ),
            mods: Map::new(
                |h: int| h == MOCK_PROCESS_HANDLE as int,
                |h: int| self.modules@.map_values(|p: ModuleProbe| p@),
            ),
        }
    }

    open spec fn probed(&self) -> Seq<u32> {
        self.probed@
    }

    fn enum_pids(&mut self) -> (r: Result<Vec<u32>, i32>) {
        match self.enum_fail {
            Some(code) => Err(code),
            None => {
                let mut out: Vec<u32> = Vec::new();
                let mut i: usize = 0;
                while i < self.pids.len()
                    invariant
                        i <= self.pids@.len(),
                        out@ == self.pids@.take(i as int),
                    decreases self.pids@.len() - i,
                {
                    out.push(self.pids[i]);
                    proof {
                        assert(out@ =~= self.pids@.take(i as int + 1));
                    }
                    i = i + 1;
                }
                proof {
                    assert(self.pids@.take(self.pids@.len() as int) =~= self.pids@);
                }
                Ok(out)
            },
        }
    }

    fn probe_name(&mut self, pid: u32) -> (r: Option<String>) {
        self.probed.push(pid);
        proof {
            assert(self.model().names =~= old(self).model().names);
            assert(self.model().mods =~= old(self).model().mods);
        }
        let mut j: usize = 0;
        while j < self.names.len()
            invariant
                self.model() == old(self).model(),
                self.names == old(self).names,
                self.probed@ == old(self).probed@.push(pid),
                j <= self.names@.len(),
                forall|q: int| 0 <= q < j ==> (#[trigger] self.names@[q]).0 != pid,
            decreases self.names@.len() - j,
        {
            if self.names[j].0 == pid {
                proof {
                    lemma_assoc_first(self.names@, pid, j as int);
                }
                return Some(self.names[j].1.clone());
            }
            j = j + 1;
        }
        proof {
            lemma_assoc_none(self.names@, pid);
        }
        None
    }

    fn open_process(&mut self, pid: u32, access: u32) -> (r: isize) {
        if pid == 0 {
            0
        } else {
            MOCK_PROCESS_HANDLE
        }
    }

    fn close_process(&mut self, handle: isize) {
    }

    fn list_modules(&mut self, handle: isize) -> (r: Result<Vec<ModuleProbe>, u32>) {
        if handle != MOCK_PROCESS_HANDLE {
            return Err(6);
        }
        let mut out: Vec<ModuleProbe> = Vec::new();
        let mut i: usize = 0;
        while i < self.modules.len()
            invariant
                i <= self.modules@.len(),
                out@.len() == i,
                forall|q: int| 0 <= q < i ==> #[trigger] out@[q]@ == self.modules@[q]@,
            decreases self.modules@.len() - i,
        {
            let ghost prev = out@;
            let pr = &self.modules[i];
            let name_c: Option<String> = match pr.name.as_ref() {
                Some(s) => Some(s.clone()),
                None => None,
            };
            out.push(ModuleProbe { name: name_c, meta: pr.meta });
            proof {
                assert forall|q: int| 0 <= q < i + 1 implies #[trigger] out@[q]@
                    == self.modules@[q]@ by {
                    if q < i {
                        assert(out@[q] == prev[q]);
                    } else {
                        assert(out@[q] == out@.last());
                    }
                }
            }
            i = i + 1;
        }
        proof {
            assert(out@.map_values(|p: ModuleProbe| p@) =~= self.modules@.map_values(
                |p: ModuleProbe| p@,
            ));
        }
        Ok(out)
    }
}

} // verus!
