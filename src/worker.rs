//! The decisions of the local worker engine. The engine itself (timers, the
//! channel between fetcher and executor, the coordinator client and the proof
//! primitive) runs outside; it reports each event here and performs the
//! action that comes back.
use vstd::prelude::*;
use crate::model::{kind_label, task_type_to_string, RepoError, Task, TaskType};
use crate::store::{kinds_view, string_views, task_views};
use crate::seqs::oldest_first;

verus! {

/// What the fetcher does on a tick.
pub enum FetchAction {
    /// The engine is at its concurrency cap: do nothing.
    Idle,
    /// Run the given task, claimed before the process last started.
    Run(Task),
    /// Ask the coordinator for a new task of the accepted types.
    AskTodo,
}

/// What the executor reports to the coordinator about a finished task.
pub enum Report {
    Proof { worker_id: String, task_id: String, proof: Vec<u8> },
    Error { worker_id: String, task_id: String, msg: String },
}

/// The state of one worker process: its identity, its concurrency cap, the
/// types it accepts, the tasks it has in flight and the tasks it resumes.
pub struct LocalWorker {
    pub worker_id: String,
    pub max_task: usize,
    pub allow_types: Option<Vec<TaskType>>,
    pub in_flight: usize,
    pub resumed: Vec<Task>,
}

impl LocalWorker {
    /// The number of tasks handed to the executor and not yet finished.
    pub open spec fn in_flight_spec(&self) -> nat {
        self.in_flight as nat
    }

    /// The tasks claimed before a restart that wait to be run again.
    pub open spec fn resumed_spec(&self) -> Seq<crate::model::TaskView> {
        task_views(self.resumed@)
    }

    /// Never more tasks in flight than the cap.
    pub open spec fn wf(&self) -> bool {
        self.in_flight_spec() <= self.max_task
    }

    pub fn new(max_task: usize, worker_id: String, allow_types: Option<Vec<TaskType>>) -> (r: LocalWorker)
        ensures
            r.wf(),
            r.max_task == max_task,
            r.worker_id == worker_id,
            kinds_view(r.allow_types) == kinds_view(allow_types),
            r.in_flight_spec() == 0,
            r.resumed_spec().len() == 0,
    {
        LocalWorker { worker_id, max_task, allow_types, in_flight: 0, resumed: Vec::new() }
    }

    pub fn in_flight(&self) -> (r: usize)
        ensures
            r == self.in_flight_spec(),
    {
        self.in_flight
    }

    /// Takes the tasks that the coordinator still lists as running under this
    /// worker; they are run again before any new task is asked for.
    pub fn resume(&mut self, uncompleted: Vec<Task>)
        requires
            old(self).wf(),
        ensures
            final(self).wf(),
            final(self).resumed_spec() == task_views(uncompleted@),
            final(self).in_flight_spec() == old(self).in_flight_spec(),
            final(self).max_task == old(self).max_task,
            final(self).worker_id == old(self).worker_id,
    {
        self.resumed = uncompleted;
    }

    /// The decision of one fetcher tick: skip at the cap; else run the last
    /// resumed task, if any; else ask for new work.
    pub fn on_tick(&mut self) -> (r: FetchAction)
        requires
            old(self).wf(),
        ensures
            final(self).wf(),
            final(self).max_task == old(self).max_task,
            final(self).worker_id == old(self).worker_id,
            old(self).in_flight_spec() >= old(self).max_task ==> (r is Idle && final(self).in_flight_spec()
                == old(self).in_flight_spec() && final(self).resumed_spec() == old(self).resumed_spec()),
            old(self).in_flight_spec() < old(self).max_task && old(self).resumed_spec().len() > 0 ==> (
            r matches FetchAction::Run(t) && t@ == old(self).resumed_spec().last()
                && final(self).resumed_spec() == old(self).resumed_spec().drop_last()
                && final(self).in_flight_spec() == old(self).in_flight_spec() + 1),
            old(self).in_flight_spec() < old(self).max_task && old(self).resumed_spec().len() == 0 ==> (
            r is AskTodo && final(self).in_flight_spec() == old(self).in_flight_spec()
                && final(self).resumed_spec() == old(self).resumed_spec()),
    {
        if self.in_flight >= self.max_task {
            return FetchAction::Idle;
        }
        match self.resumed.pop() {
            Some(t) => {
                self.in_flight = self.in_flight + 1;
                proof {
                    assert(task_views(self.resumed@) =~= task_views(old(self).resumed@).drop_last());
                }
                FetchAction::Run(t)
            },
            None => FetchAction::AskTodo,
        }
    }

    /// The coordinator's answer to a request for work: a claimed task goes to
    /// the executor when below the cap, else it waits with the resumed tasks;
    /// no work or a failed request changes nothing.
    pub fn on_todo(&mut self, answer: Result<Task, RepoError>) -> (r: Option<Task>)
        requires
            old(self).wf(),
        ensures
            final(self).wf(),
            final(self).max_task == old(self).max_task,
            final(self).worker_id == old(self).worker_id,
            answer is Err ==> (r is None && final(self).in_flight_spec() == old(self).in_flight_spec()
                && final(self).resumed_spec() == old(self).resumed_spec()),
            answer matches Ok(t) ==> if old(self).in_flight_spec() < old(self).max_task {
                r matches Some(u) && u@ == t@ && final(self).in_flight_spec() == old(self).in_flight_spec() + 1
                    && final(self).resumed_spec() == old(self).resumed_spec()
            } else {
                r is None && final(self).in_flight_spec() == old(self).in_flight_spec()
                    && final(self).resumed_spec() == old(self).resumed_spec().push(t@)
            },
    {
        match answer {
            Ok(t) => {
                if self.in_flight < self.max_task {
                    self.in_flight = self.in_flight + 1;
                    Some(t)
                } else {
                    self.resumed.push(t);
                    proof {
                        assert(task_views(self.resumed@) =~= task_views(old(self).resumed@).push(t@));
                    }
                    None
                }
            },
            Err(_) => None,
        }
    }

    /// A dispatched task left the executor without a result (its input could
    /// not be fetched); it stays running at the coordinator and is resumed
    /// after the next restart.
    pub fn on_dropped(&mut self)
        requires
            old(self).wf(),
        ensures
            final(self).wf(),
            final(self).max_task == old(self).max_task,
            final(self).worker_id == old(self).worker_id,
            final(self).resumed_spec() == old(self).resumed_spec(),
            final(self).in_flight_spec() == if old(self).in_flight_spec() > 0 {
                old(self).in_flight_spec() - 1
            } else {
                0
            },
    {
        if self.in_flight > 0 {
            self.in_flight = self.in_flight - 1;
        }
    }

    /// A dispatched task finished: the slot is freed and the outcome becomes
    /// the report to send, a proof or the failure's message.
    pub fn on_finished(&mut self, task_id: String, outcome: Result<Vec<u8>, String>) -> (r: Report)
        requires
            old(self).wf(),
        ensures
            final(self).wf(),
            final(self).max_task == old(self).max_task,
            final(self).worker_id == old(self).worker_id,
            final(self).resumed_spec() == old(self).resumed_spec(),
            final(self).in_flight_spec() == if old(self).in_flight_spec() > 0 {
                old(self).in_flight_spec() - 1
            } else {
                0
            },
            match outcome {
                Ok(p) => (r matches Report::Proof { worker_id, task_id: id, proof } && worker_id@
                    == old(self).worker_id@ && id@ == task_id@ && proof@ == p@),
                Err(m) => (r matches Report::Error { worker_id, task_id: id, msg } && worker_id@
                    == old(self).worker_id@ && id@ == task_id@ && msg@ == m@),
            },
    {
        self.on_dropped();
        match outcome {
            Ok(proof) => Report::Proof { worker_id: self.worker_id.clone(), task_id, proof },
            Err(msg) => Report::Error { worker_id: self.worker_id.clone(), task_id, msg },
        }
    }
}

/// `|`-joined parts.
pub open spec fn joined(parts: Seq<Seq<char>>) -> Seq<char>
    decreases parts.len(),
{
    if parts.len() == 0 {
        Seq::empty()
    } else if parts.len() == 1 {
        parts[0]
    } else {
        joined(parts.drop_last()) + seq!['|'] + parts.last()
    }
}

/// Joins `parts` with `|`.
pub fn join_parts(parts: &Vec<String>) -> (r: String)
    ensures
        r@ == joined(string_views(parts@)),
{
    let ghost views = string_views(parts@);
    let mut out = String::new();
    let mut i: usize = 0;
    while i < parts.len()
        invariant
            views == string_views(parts@),
            i <= parts@.len(),
            out@ == joined(views.subrange(0, i as int)),
        decreases parts@.len() - i,
    {
        proof {
            assert(views.subrange(0, i + 1).drop_last() =~= views.subrange(0, i as int));
        }
        if i > 0 {
            out.append("|");
            proof {
                reveal_strlit("|");
            }
        }
        out.append(parts[i].as_str());
        proof {
            if i == 0 {
                assert(out@ =~= views[0]);
            } else {
                assert(out@ =~= joined(views.subrange(0, i as int)) + seq!['|'] + views[i as int]);
            }
        }
        i = i + 1;
    }
    assert(views.subrange(0, parts@.len() as int) =~= views);
    out
}

/// The textual names of task types.
pub open spec fn kind_labels(ks: Seq<TaskType>) -> Seq<Seq<char>> {
    ks.map_values(|k: TaskType| kind_label(k))
}

/// The task types a worker accepts, as it reports them: names joined with
/// `|`; empty when it accepts every type.
pub fn support_types_text(allow_types: &Option<Vec<TaskType>>) -> (r: String)
    ensures
        r@ == match kinds_view(*allow_types) {
            Some(ks) => joined(kind_labels(ks)),
            None => Seq::empty(),
        },
{
    match allow_types {
        None => String::new(),
        Some(ks) => {
            let ghost old_ks = ks@;
            let mut names: Vec<String> = Vec::new();
            let mut i: usize = 0;
            while i < ks.len()
                invariant
                    ks@ == old_ks,
                    i <= ks@.len(),
                    string_views(names@) == kind_labels(ks@.subrange(0, i as int)),
                decreases ks@.len() - i,
            {
                let ghost old_names = names@;
                let name = task_type_to_string(ks[i]);
                names.push(name);
                proof {
                    assert(ks@.subrange(0, i + 1) =~= ks@.subrange(0, i as int).push(ks@[i as int]));
                    assert(string_views(names@) =~= string_views(old_names).push(name@));
                    assert(string_views(names@) =~= kind_labels(ks@.subrange(0, i + 1)));
                }
                i = i + 1;
            }
            assert(ks@.subrange(0, ks@.len() as int) =~= ks@);
            join_parts(&names)
        },
    }
}

/// Loopback addresses, which a worker never reports.
pub open spec fn is_loopback(ip: Seq<char>) -> bool {
    ip == "0:0:0:0:0:0:0:1"@ || ip == "::1"@ || ip == "127.0.0.1"@
}

/// An address with whether it is IPv4, as a value.
pub open spec fn ip_views(v: Seq<(bool, String)>) -> Seq<(bool, Seq<char>)> {
    v.map_values(|a: (bool, String)| (a.0, a.1@))
}

pub open spec fn reported_v4() -> spec_fn((bool, Seq<char>)) -> bool {
    |a: (bool, Seq<char>)| a.0 && !is_loopback(a.1)
}

pub open spec fn reported_v6() -> spec_fn((bool, Seq<char>)) -> bool {
    |a: (bool, Seq<char>)| !a.0 && !is_loopback(a.1)
}

pub open spec fn ip_texts(v: Seq<(bool, Seq<char>)>) -> Seq<Seq<char>> {
    v.map_values(|a: (bool, Seq<char>)| a.1)
}

/// The reported addresses among `ips` (each with whether it is IPv4): the
/// non-loopback IPv4 ones, then the non-loopback IPv6 ones, in their order.
pub open spec fn reported_ips(ips: Seq<(bool, Seq<char>)>) -> Seq<Seq<char>> {
    ip_texts(oldest_first(ips, reported_v4())) + ip_texts(oldest_first(ips, reported_v6()))
}

fn loopback(ip: &String) -> (r: bool)
    ensures
        r == is_loopback(ip@),
{
    let a = String::from_str("0:0:0:0:0:0:0:1");
    let b = String::from_str("::1");
    let c = String::from_str("127.0.0.1");
    *ip == a || *ip == b || *ip == c
}

/// The address text a worker reports: the operator's manual address when
/// given, else the discovered addresses, IPv4 first, loopback left out,
/// joined with `|`.
pub fn ips_text(manual_ip: Option<String>, ips: &Vec<(bool, String)>) -> (r: String)
    ensures
        manual_ip matches Some(m) ==> r@ == m@,
        manual_ip is None ==> r@ == joined(reported_ips(ip_views(ips@))),
{
    match manual_ip {
        Some(m) => m,
        None => {
            let ghost vs = ip_views(ips@);
            let mut v4: Vec<String> = Vec::new();
            let mut v6: Vec<String> = Vec::new();
            let mut i: usize = 0;
            while i < ips.len()
                invariant
                    vs == ip_views(ips@),
                    i <= ips@.len(),
                    string_views(v4@) == ip_texts(oldest_first(vs.subrange(0, i as int), reported_v4())),
                    string_views(v6@) == ip_texts(oldest_first(vs.subrange(0, i as int), reported_v6())),
                decreases ips@.len() - i,
            {
                let ghost sub = vs.subrange(0, i + 1);
                let ghost o4 = v4@;
                let ghost o6 = v6@;
                proof {
                    assert(sub.drop_last() =~= vs.subrange(0, i as int));
                    assert(sub.last() == vs[i as int]);
                }
                let lb = loopback(&ips[i].1);
                if !lb {
                    if ips[i].0 {
                        let t = ips[i].1.clone();
                        v4.push(t);
                        proof {
                            assert(string_views(v4@) =~= string_views(o4).push(t@));
                        }
                    } else {
                        let t = ips[i].1.clone();
                        v6.push(t);
                        proof {
                            assert(string_views(v6@) =~= string_views(o6).push(t@));
                        }
                    }
                }
                proof {
                    assert(string_views(v4@) =~= ip_texts(oldest_first(sub, reported_v4())));
                    assert(string_views(v6@) =~= ip_texts(oldest_first(sub, reported_v6())));
                }
                i = i + 1;
            }
            assert(vs.subrange(0, ips@.len() as int) =~= vs);
            let mut all = v4;
            let mut rest = v6;
            all.append(&mut rest);
            assert(string_views(all@) =~= reported_ips(vs));
            join_parts(&all)
        },
    }
}

} // verus!
