use vstd::prelude::*;
use vstd::hash_map::{HashMapWithView, StringHashMap};

use crate::history::History;
use crate::path::{DirListing, PathTable, path_lookup, listings_view};
use crate::process::{Job, JobId, ProcessState};
use crate::text::{str_eq, views};
use crate::variable::{Frame, Value, Variable};

verus! {

broadcast use vstd::std_specs::hash::group_hash_axioms;

/// The separators used when `$IFS` is not set.
pub open spec fn default_ifs() -> Seq<char> {
    seq!['\n', '\t', ' ']
}

/// The state of one shell session.
pub struct Shell {
    last_status: i32,
    interactive: bool,
    path_table: PathTable,
    last_fore_job: Option<JobId>,
    states: HashMapWithView<i32, ProcessState>,
    /// The shell's own process group, taken once at startup.
    shell_pgid: i32,
    pid_job_mapping: HashMapWithView<i32, usize>,
    jobs: HashMapWithView<usize, Job>,
    cd_stack: Vec<String>,
    /// Local scopes (variables declared with `local`).
    frames: Vec<Frame>,
    /// Global scope.
    global: Frame,
    exported: Vec<String>,
    aliases: StringHashMap<String>,
    history: History,
}

impl Shell {
    pub closed spec fn wf(&self) -> bool {
        &&& self.path_table.wf()
        &&& forall|id: usize| #[trigger] self.jobs@.contains_key(id) ==> {
            &&& self.jobs@[id].processes@.len() > 0
            &&& self.jobs@[id].pgid != 0
            &&& self.jobs@[id].spec_id() == JobId(id)
            &&& id >= 1
        }
    }

    pub proof fn lemma_wf_job(&self, id: usize)
        requires
            self.wf(),
            self.spec_jobs().contains_key(id),
        ensures
            self.spec_jobs()[id].processes@.len() > 0,
            self.spec_jobs()[id].pgid != 0,
            self.spec_jobs()[id].id == JobId(id),
    {
    }

    /// The job table, process states, status, path table and variables are as in `other`.
    pub open spec fn same_processes(&self, other: &Shell) -> bool {
        &&& self.spec_states() == other.spec_states()
        &&& self.spec_jobs() == other.spec_jobs()
        &&& self.spec_last_fore_job() == other.spec_last_fore_job()
        &&& self.spec_last_status() == other.spec_last_status()
        &&& self.spec_path_table() == other.spec_path_table()
    }

    pub closed spec fn spec_states(&self) -> Map<i32, ProcessState> {
        self.states@
    }

    pub closed spec fn spec_jobs(&self) -> Map<usize, Job> {
        self.jobs@
    }

    pub closed spec fn spec_last_fore_job(&self) -> Option<JobId> {
        self.last_fore_job
    }

    pub closed spec fn spec_interactive(&self) -> bool {
        self.interactive
    }

    pub closed spec fn spec_shell_pgid(&self) -> i32 {
        self.shell_pgid
    }

    pub fn shell_pgid(&self) -> (r: i32)
        ensures
            r == self.spec_shell_pgid(),
    {
        self.shell_pgid
    }

    pub fn last_fore_job(&self) -> (r: Option<JobId>)
        ensures
            r == self.spec_last_fore_job(),
    {
        self.last_fore_job
    }

    pub fn set_last_fore_job(&mut self, job: Option<JobId>)
        ensures
            final(self).spec_last_fore_job() == job,
            old(self).wf() ==> final(self).wf(),
            final(self).spec_states() == old(self).spec_states(),
            final(self).spec_jobs() == old(self).spec_jobs(),
            final(self).spec_last_status() == old(self).spec_last_status(),
    {
        self.last_fore_job = job;
    }

    pub closed spec fn spec_last_status(&self) -> i32 {
        self.last_status
    }

    pub closed spec fn spec_path_table(&self) -> PathTable {
        self.path_table
    }

    pub closed spec fn spec_history(&self) -> History {
        self.history
    }

    pub closed spec fn spec_cd_stack(&self) -> Seq<Seq<char>> {
        views(self.cd_stack@)
    }

    pub closed spec fn spec_aliases(&self) -> Map<Seq<char>, String> {
        self.aliases@
    }

    pub closed spec fn spec_exported(&self) -> Set<Seq<char>> {
        Set::new(|k: Seq<char>| views(self.exported@).contains(k))
    }

    /// The number of local scopes.
    pub closed spec fn spec_depth(&self) -> nat {
        self.frames@.len()
    }

    pub closed spec fn spec_global(&self) -> Map<Seq<char>, Variable> {
        self.global.spec_vars()
    }

    /// The variables of the innermost scope: the top frame, or the global one.
    pub closed spec fn spec_current(&self) -> Map<Seq<char>, Variable> {
        if self.frames@.len() > 0 {
            self.frames@.last().spec_vars()
        } else {
            self.global.spec_vars()
        }
    }

    /// The variable `key` names: looked up in the innermost scope, then the global one.
    pub open spec fn spec_get(&self, key: Seq<char>) -> Option<Variable> {
        if self.spec_current().contains_key(key) {
            Some(self.spec_current()[key])
        } else if self.spec_global().contains_key(key) {
            Some(self.spec_global()[key])
        } else {
            None
        }
    }

    /// A shell whose process group is `shell_pgid`, with the history `history` and no
    /// variables.
    pub fn new(shell_pgid: i32, history: History) -> (r: Shell)
        ensures
            r.wf(),
            r.spec_shell_pgid() == shell_pgid,
            !r.spec_interactive(),
            r.spec_last_status() == 0,
            r.spec_history() == history,
            r.spec_jobs().is_empty(),
            r.spec_states().is_empty(),
            r.spec_last_fore_job() is None,
            forall|k: Seq<char>| #[trigger] r.spec_get(k) is None,
    {
        Shell {
            last_status: 0,
            interactive: false,
            path_table: PathTable::new(),
            last_fore_job: None,
            states: HashMapWithView::new(),
            shell_pgid,
            pid_job_mapping: HashMapWithView::new(),
            jobs: HashMapWithView::new(),
            cd_stack: Vec::new(),
            frames: Vec::new(),
            global: Frame::new(),
            exported: Vec::new(),
            aliases: StringHashMap::new(),
            history,
        }
    }

    pub fn interactive(&self) -> (r: bool)
        ensures
            r == self.spec_interactive(),
    {
        self.interactive
    }

    pub fn set_interactive(&mut self, interactive: bool)
        ensures
            final(self).spec_interactive() == interactive,
            old(self).wf() ==> final(self).wf(),
            final(self).spec_states() == old(self).spec_states(),
            final(self).spec_jobs() == old(self).spec_jobs(),
    {
        self.interactive = interactive;
    }

    pub fn path_table(&self) -> (r: &PathTable)
        ensures
            *r == self.spec_path_table(),
    {
        &self.path_table
    }

    /// Points the path table at `path`, whose directories list `listings`.
    pub fn scan_path(&mut self, path: &str, listings: &Vec<DirListing>)
        requires
            old(self).wf(),
        ensures
            final(self).wf(),
            final(self).spec_path_table().spec_path() == path@,
            forall|cmd: Seq<char>|
                #[trigger] final(self).spec_path_table().spec_lookup(cmd) == path_lookup(listings_view(listings@), cmd),
            final(self).spec_states() == old(self).spec_states(),
            final(self).spec_jobs() == old(self).spec_jobs(),
    {
        self.path_table.scan(path, listings);
    }

    pub fn set_last_status(&mut self, status: i32)
        ensures
            final(self).spec_last_status() == status,
            old(self).wf() ==> final(self).wf(),
            final(self).spec_states() == old(self).spec_states(),
            final(self).spec_jobs() == old(self).spec_jobs(),
            final(self).spec_last_fore_job() == old(self).spec_last_fore_job(),
    {
        self.last_status = status;
    }

    pub fn last_status(&self) -> (r: i32)
        ensures
            r == self.spec_last_status(),
    {
        self.last_status
    }

    pub fn get(&self, key: &str) -> (r: Option<&Variable>)
        ensures
            match r {
                Some(v) => self.spec_get(key@) == Some(*v),
                None => self.spec_get(key@) is None,
            },
    {
        if let Some(var) = self.current_frame().get(key) {
            Some(var)
        } else {
            self.global.get(key)
        }
    }

    pub fn current_frame(&self) -> (r: &Frame)
        ensures
            r.spec_vars() == self.spec_current(),
    {
        if self.frames.len() > 0 {
            &self.frames[self.frames.len() - 1]
        } else {
            &self.global
        }
    }

    /// The value of `key` when it is a string.
    pub fn get_str(&self, key: &str) -> (r: Option<String>)
        ensures
            match r {
                Some(s) => self.spec_get(key@) matches Some(v) && v.spec_value() matches Some(
                    Value::String(t),
                ) && s@ == t@,
                None => !(self.spec_get(key@) matches Some(v) && v.spec_value() matches Some(
                    Value::String(_),
                )),
            },
    {
        match self.get(key) {
            Some(var) => match var.value() {
                Some(Value::String(s)) => Some(s.clone()),
                _ => None,
            },
            None => None,
        }
    }

    /// The field separators: `$IFS` when it is a string, else newline, tab and space.
    pub open spec fn spec_ifs(&self) -> Seq<char> {
        match self.spec_get(seq!['I', 'F', 'S']) {
            Some(v) => match v.spec_value() {
                Some(Value::String(t)) => t@,
                _ => default_ifs(),
            },
            None => default_ifs(),
        }
    }

    pub fn ifs(&self) -> (r: String)
        ensures
            r@ == self.spec_ifs(),
    {
        proof {
            reveal_strlit("IFS");
            reveal_strlit("\n\t ");
            assert("IFS"@ =~= seq!['I', 'F', 'S']);
        }
        match self.get_str("IFS") {
            Some(s) => s,
            None => {
                let d = "\n\t ".to_owned();
                assert(d@ =~= default_ifs());
                d
            },
        }
    }

    /// Sets `key` in the innermost scope (`is_local`) or the global one. Returns whether
    /// it set the global `PATH` to a string, after which the path table is to be rescanned.
    fn set_value(&mut self, key: &str, value: Value, is_local: bool) -> (r: bool)
        requires
            old(self).wf(),
        ensures
            final(self).wf(),
            r == (!is_local && key@ == seq!['P', 'A', 'T', 'H'] && value is String),
            is_local || old(self).spec_depth() == 0 || !old(self).spec_current().contains_key(key@)
                ==> (final(self).spec_get(key@) matches Some(v) && v.spec_value() == Some(value)),
            !is_local || old(self).spec_depth() == 0 ==> final(self).spec_global() == old(
                self,
            ).spec_global().insert(key@, final(self).spec_global()[key@]),
            is_local && old(self).spec_depth() > 0 ==> final(self).spec_global() == old(
                self,
            ).spec_global(),
            final(self).spec_states() == old(self).spec_states(),
            final(self).spec_jobs() == old(self).spec_jobs(),
            final(self).spec_path_table() == old(self).spec_path_table(),
            final(self).spec_last_status() == old(self).spec_last_status(),
    {
        let is_path = match &value {
            Value::String(_) => !is_local && str_eq(key, "PATH"),
            _ => false,
        };
        proof {
            reveal_strlit("PATH");
            assert("PATH"@ =~= seq!['P', 'A', 'T', 'H']);
        }
        if is_local && self.frames.len() > 0 {
            let n = self.frames.len() - 1;
            let mut frame = self.frames.remove(n);
            frame.set(key, value);
            self.frames.push(frame);
            assert(self.frames@.last().spec_vars() == frame.spec_vars());
        } else {
            self.global.set(key, value);
        }
        is_path
    }

    /// Sets `key` in the innermost scope (`is_local`) or the global one. Setting the global
    /// `PATH` to a string refills the path table from `listings`, the contents of the new
    /// search path's directories (`PathTable::dirs`) in order; otherwise `listings` is not
    /// read.
    pub fn set(&mut self, key: &str, value: Value, is_local: bool, listings: &Vec<DirListing>)
        requires
            old(self).wf(),
        ensures
            final(self).wf(),
            is_local || old(self).spec_depth() == 0 || !old(self).spec_current().contains_key(key@)
                ==> (final(self).spec_get(key@) matches Some(v) && v.spec_value() == Some(value)),
            !is_local || old(self).spec_depth() == 0 ==> final(self).spec_global() == old(
                self,
            ).spec_global().insert(key@, final(self).spec_global()[key@]),
            is_local && old(self).spec_depth() > 0 ==> final(self).spec_global() == old(
                self,
            ).spec_global(),
            (!is_local && key@ == seq!['P', 'A', 'T', 'H'] && value is String) ==> {
                &&& final(self).spec_path_table().spec_path() == value->String_0@
                &&& forall|cmd: Seq<char>|
                    #[trigger] final(self).spec_path_table().spec_lookup(cmd) == path_lookup(listings_view(listings@), cmd)
            },
            !(!is_local && key@ == seq!['P', 'A', 'T', 'H'] && value is String) ==> final(self).spec_path_table()
                == old(self).spec_path_table(),
            final(self).spec_states() == old(self).spec_states(),
            final(self).spec_jobs() == old(self).spec_jobs(),
            final(self).spec_last_status() == old(self).spec_last_status(),
    {
        let path = match &value {
            Value::String(p) => Some(p.clone()),
            Value::Array(_) => None,
        };
        let rescan = self.set_value(key, value, is_local);
        if rescan {
            if let Some(p) = path {
                let ghost before = self.spec_get(key@);
                self.path_table.scan(p.as_str(), listings);
                assert(self.spec_get(key@) == before);
            }
        }
    }

    pub fn get_process_state(&self, pid: i32) -> (r: Option<&ProcessState>)
        ensures
            match r {
                Some(s) => self.spec_states().contains_key(pid) && *s == self.spec_states()[pid],
                None => !self.spec_states().contains_key(pid),
            },
    {
        self.states.get(&pid)
    }

    pub fn set_process_state(&mut self, pid: i32, state: ProcessState)
        requires
            old(self).wf(),
        ensures
            final(self).wf(),
            final(self).spec_states() == old(self).spec_states().insert(pid, state),
            final(self).spec_jobs() == old(self).spec_jobs(),
            final(self).spec_last_fore_job() == old(self).spec_last_fore_job(),
            final(self).spec_last_status() == old(self).spec_last_status(),
    {
        self.states.insert(pid, state);
    }

    /// The lowest job id from 1 up that no job holds.
    fn alloc_job_id(&self) -> (r: JobId)
        ensures
            r.0 >= 1,
            forall|k: usize| 1 <= k < r.0 ==> self.jobs@.contains_key(k),
            !self.jobs@.contains_key(r.0) || r.0 == usize::MAX,
    {
        let mut id: usize = 1;
        while self.jobs.contains_key(&id) && id < usize::MAX
            invariant
                id >= 1,
                forall|k: usize| 1 <= k < id ==> self.jobs@.contains_key(k),
            decreases usize::MAX - id,
        {
            id += 1;
        }
        JobId::new(id)
    }

    /// Registers a job for the pipeline `name` whose processes are `childs`, all now
    /// running, under the lowest free id.
    pub fn create_job(&mut self, name: String, pgid: i32, childs: Vec<i32>) -> (r: JobId)
        requires
            old(self).wf(),
            childs@.len() > 0,
            pgid != 0,
        ensures
            final(self).wf(),
            r.0 >= 1,
            forall|k: usize| 1 <= k < r.0 ==> old(self).spec_jobs().contains_key(k),
            !old(self).spec_jobs().contains_key(r.0) || r.0 == usize::MAX,
            final(self).spec_jobs().contains_key(r.0),
            final(self).spec_jobs()[r.0].pgid == pgid,
            final(self).spec_jobs()[r.0].cmd@ == name@,
            final(self).spec_jobs()[r.0].processes@ == childs@,
            final(self).spec_jobs() == old(self).spec_jobs().insert(r.0, final(self).spec_jobs()[r.0]),
            forall|k: int| 0 <= k < childs@.len() ==> final(self).spec_states().contains_key(#[trigger] childs@[k])
                && final(self).spec_states()[childs@[k]] == ProcessState::Running,
            forall|pid: i32| !childs@.contains(pid) ==> #[trigger] final(self).spec_states().get(pid) == old(self).spec_states().get(pid),
            final(self).spec_last_fore_job() == old(self).spec_last_fore_job(),
            final(self).spec_last_status() == old(self).spec_last_status(),
    {
        let id = self.alloc_job_id();
        let mut i: usize = 0;
        while i < childs.len()
            invariant
                i <= childs@.len(),
                self.jobs@ == old(self).jobs@,
                self.wf(),
                forall|k: int| 0 <= k < i ==> self.states@.contains_key(#[trigger] childs@[k])
                    && self.states@[childs@[k]] == ProcessState::Running,
                forall|pid: i32| !childs@.contains(pid) ==> #[trigger] self.states@.get(pid) == old(self).states@.get(pid),
                self.last_fore_job == old(self).last_fore_job,
                self.last_status == old(self).last_status,
            decreases childs@.len() - i,
        {
            let pid = childs[i];
            let ghost before = self.states@;
            self.states.insert(pid, ProcessState::Running);
            self.pid_job_mapping.insert(pid, id.0);
            i += 1;
            assert forall|p: i32| !childs@.contains(p) implies #[trigger] self.states@.get(p) == old(self).states@.get(p) by {
                if p == pid {
                    assert(childs@[i - 1] == p);
                } else {
                    assert(before.get(p) == old(self).states@.get(p));
                    assert(self.states@.get(p) == before.get(p));
                }
            }
        }
        let job = Job::new(id, pgid, name, childs);
        self.jobs.insert(id.0, job);
        id
    }

    pub fn get_job(&self, id: JobId) -> (r: Option<&Job>)
        ensures
            match r {
                Some(j) => self.spec_jobs().contains_key(id.0) && *j == self.spec_jobs()[id.0],
                None => !self.spec_jobs().contains_key(id.0),
            },
    {
        self.jobs.get(&id.0)
    }

    pub fn remove_job(&mut self, id: JobId)
        requires
            old(self).wf(),
        ensures
            final(self).wf(),
            final(self).spec_jobs() == old(self).spec_jobs().remove(id.0),
            final(self).spec_states() == old(self).spec_states(),
            final(self).spec_last_fore_job() == old(self).spec_last_fore_job(),
            final(self).spec_last_status() == old(self).spec_last_status(),
    {
        self.jobs.remove(&id.0);
    }

    pub fn pushd(&mut self, path: String)
        ensures
            final(self).spec_cd_stack() == old(self).spec_cd_stack().push(path@),
            old(self).wf() ==> final(self).wf(),
            final(self).same_processes(&*old(self)),
    {
        let ghost prev = self.cd_stack@;
        self.cd_stack.push(path);
        assert(views(self.cd_stack@) =~= views(prev).push(path@));
    }

    pub fn popd(&mut self) -> (r: Option<String>)
        ensures
            old(self).spec_cd_stack().len() == 0 ==> r is None && final(self).spec_cd_stack() == old(self).spec_cd_stack(),
            old(self).spec_cd_stack().len() > 0 ==> (r matches Some(s) && s@ == old(self).spec_cd_stack().last())
                && final(self).spec_cd_stack() == old(self).spec_cd_stack().drop_last(),
            old(self).wf() ==> final(self).wf(),
            final(self).same_processes(&*old(self)),
    {
        let ghost prev = self.cd_stack@;
        let r = self.cd_stack.pop();
        proof {
            if prev.len() > 0 {
                assert(views(self.cd_stack@) =~= views(prev).drop_last());
            }
        }
        r
    }

    pub fn history(&self) -> (r: &History)
        ensures
            *r == self.spec_history(),
    {
        &self.history
    }

    pub fn history_mut(&mut self) -> (r: &mut History)
        ensures
            *r == old(self).spec_history(),
            final(self).spec_history() == *final(r),
            old(self).wf() ==> final(self).wf(),
            final(self).same_processes(&*old(self)),
    {
        &mut self.history
    }

    pub fn exported_names(&self) -> (r: &Vec<String>)
        ensures
            forall|k: Seq<char>| views(r@).contains(k) <==> self.spec_exported().contains(k),
    {
        &self.exported
    }

    /// Marks `name` for export to child processes.
    pub fn export(&mut self, name: &str)
        ensures
            final(self).spec_exported() == old(self).spec_exported().insert(name@),
            old(self).wf() ==> final(self).wf(),
            final(self).same_processes(&*old(self)),
    {
        let mut i: usize = 0;
        while i < self.exported.len()
            invariant
                i <= self.exported@.len(),
                forall|k: int| 0 <= k < i ==> self.exported@[k]@ != name@,
            decreases self.exported@.len() - i,
        {
            if str_eq(self.exported[i].as_str(), name) {
                assert(views(self.exported@)[i as int] == name@);
                assert(self.spec_exported() =~= self.spec_exported().insert(name@));
                return;
            }
            i += 1;
        }
        let ghost prev = views(self.exported@);
        self.exported.push(name.to_owned());
        assert(views(self.exported@) =~= prev.push(name@));
        assert forall|k: Seq<char>| views(self.exported@).contains(k) <==> prev.contains(k) || k == name@ by {
            if views(self.exported@).contains(k) && k != name@ {
                let x = choose|x: int| 0 <= x < views(self.exported@).len() && views(self.exported@)[x] == k;
                assert(prev[x] == k);
            }
            if prev.contains(k) {
                let x = choose|x: int| 0 <= x < prev.len() && prev[x] == k;
                assert(views(self.exported@)[x] == k);
            }
            if k == name@ {
                assert(views(self.exported@)[prev.len() as int] == k);
            }
        }
        assert forall|k: Seq<char>| #[trigger] self.spec_exported().contains(k) == old(self).spec_exported().insert(name@).contains(k) by {
            assert(prev == views(old(self).exported@));
            assert(self.spec_exported().contains(k) == views(self.exported@).contains(k));
            assert(old(self).spec_exported().contains(k) == prev.contains(k));
            assert(views(self.exported@).contains(k) <==> prev.contains(k) || k == name@);
        }
        assert(self.spec_exported() =~= old(self).spec_exported().insert(name@));
    }

    pub fn add_alias(&mut self, name: &str, body: String)
        ensures
            final(self).spec_aliases() == old(self).spec_aliases().insert(name@, body),
            old(self).wf() ==> final(self).wf(),
            final(self).same_processes(&*old(self)),
    {
        self.aliases.insert(name.to_owned(), body);
    }

    pub fn lookup_alias(&self, alias: &str) -> (r: Option<String>)
        ensures
            match r {
                Some(b) => self.spec_aliases().contains_key(alias@) && b@ == self.spec_aliases()[alias@]@,
                None => !self.spec_aliases().contains_key(alias@),
            },
    {
        match self.aliases.get(alias) {
            Some(b) => Some(b.clone()),
            None => None,
        }
    }

    pub fn has_lookup_alias(&self, alias: &str) -> (r: bool)
        ensures
            r == self.spec_aliases().contains_key(alias@),
    {
        self.aliases.contains_key(alias)
    }
}

} // verus!
