//! The uninstall jobs shown under the list: what each job is doing, and
//! checking after a command ends whether its application left the list.

use vstd::prelude::*;
use crate::text::{append_chars, append_str, chars_eq_str, chars_of, decimal, decimal_chars, string_of};
use crate::uninstaller::{UninstallEvent, UninstallTarget};

verus! {

/// How long after a command ends the list keeps being checked, in
/// milliseconds.
pub const VERIFY_WINDOW_MS: u64 = 90_000;

/// How often the list is checked while a job is being verified, in
/// milliseconds.
pub const VERIFY_INTERVAL_MS: u64 = 4_000;

/// At most this many jobs are kept; the oldest goes first.
pub const MAX_JOBS: usize = 12;

#[derive(Clone, Copy, Debug, PartialEq, Eq, Structural)]
pub enum JobPhase {
    Launching,
    Running,
    Verifying,
    Failed,
    VerifiedRemoved,
    StillListed,
}

/// One uninstall job; times are milliseconds on the caller's monotonic clock.
#[derive(Clone, Debug)]
pub struct ActiveUninstall {
    pub app_id: String,
    pub name: String,
    pub status: String,
    pub phase: JobPhase,
    pub pid: Option<u32>,
    pub exit_code: Option<i32>,
    pub verify_until: Option<u64>,
    pub next_verify_at: Option<u64>,
    pub verify_checks: u32,
    pub elevation_required: bool,
    pub retry_target: Option<UninstallTarget>,
}

pub struct JobModel {
    pub app_id: Seq<char>,
    pub name: Seq<char>,
    pub status: Seq<char>,
    pub phase: JobPhase,
    pub pid: Option<u32>,
    pub exit_code: Option<i32>,
    pub verify_until: Option<u64>,
    pub next_verify_at: Option<u64>,
    pub verify_checks: u32,
    pub elevation_required: bool,
    pub retry_target: Option<UninstallTarget>,
}

impl View for ActiveUninstall {
    type V = JobModel;

    open spec fn view(&self) -> JobModel {
        JobModel {
            app_id: self.app_id@,
            name: self.name@,
            status: self.status@,
            phase: self.phase,
            pid: self.pid,
            exit_code: self.exit_code,
            verify_until: self.verify_until,
            next_verify_at: self.next_verify_at,
            verify_checks: self.verify_checks,
            elevation_required: self.elevation_required,
            retry_target: self.retry_target,
        }
    }
}

pub open spec fn job_views(jobs: Seq<ActiveUninstall>) -> Seq<JobModel> {
    jobs.map_values(|j: ActiveUninstall| j@)
}

/// The position of the first job of an application.
pub open spec fn job_index(jobs: Seq<JobModel>, app_id: Seq<char>) -> Option<int>
    decreases jobs.len(),
{
    if jobs.len() == 0 {
        None
    } else {
        match job_index(jobs.drop_last(), app_id) {
            Some(i) => Some(i),
            None => if jobs.last().app_id == app_id {
                Some(jobs.len() - 1)
            } else {
                None
            },
        }
    }
}

/// What an event says of a job.
pub struct JobUpdate {
    pub app_id: Seq<char>,
    pub name: Seq<char>,
    pub phase: JobPhase,
    pub status: Seq<char>,
    pub pid: Option<u32>,
    pub exit_code: Option<i32>,
    pub elevation_required: bool,
    pub retry_target: Option<UninstallTarget>,
}

/// A job changed by an update: verification restarts when the job enters
/// verification; a missing process id, exit code or retry job keeps the old
/// one.
pub open spec fn updated_job(j: JobModel, u: JobUpdate, now: u64) -> JobModel {
    let verifying = u.phase == JobPhase::Verifying;
    JobModel {
        app_id: j.app_id,
        name: u.name,
        phase: u.phase,
        status: u.status,
        pid: if u.pid is Some {
            u.pid
        } else {
            j.pid
        },
        exit_code: if u.exit_code is Some {
            u.exit_code
        } else {
            j.exit_code
        },
        verify_until: if verifying {
            Some((now + VERIFY_WINDOW_MS) as u64)
        } else {
            j.verify_until
        },
        next_verify_at: if verifying {
            Some(now)
        } else {
            j.next_verify_at
        },
        verify_checks: if verifying {
            0
        } else {
            j.verify_checks
        },
        elevation_required: u.elevation_required,
        retry_target: if u.retry_target is Some {
            u.retry_target
        } else {
            j.retry_target
        },
    }
}

/// A new job made by an update.
pub open spec fn new_job(u: JobUpdate, now: u64) -> JobModel {
    let verifying = u.phase == JobPhase::Verifying;
    JobModel {
        app_id: u.app_id,
        name: u.name,
        status: u.status,
        phase: u.phase,
        pid: u.pid,
        exit_code: u.exit_code,
        verify_until: if verifying {
            Some((now + VERIFY_WINDOW_MS) as u64)
        } else {
            None
        },
        next_verify_at: if verifying {
            Some(now)
        } else {
            None
        },
        verify_checks: 0,
        elevation_required: u.elevation_required,
        retry_target: u.retry_target,
    }
}

/// The jobs after an update: the application's job changed, or a new job
/// added at the end; then the oldest dropped when there are too many.
pub open spec fn upserted_jobs(jobs: Seq<JobModel>, u: JobUpdate, now: u64) -> Seq<JobModel> {
    let next = match job_index(jobs, u.app_id) {
        Some(i) => jobs.update(i, updated_job(jobs[i], u, now)),
        None => jobs.push(new_job(u, now)),
    };
    if next.len() > MAX_JOBS {
        next.drop_first()
    } else {
        next
    }
}

pub open spec fn unique_ids(jobs: Seq<JobModel>) -> bool {
    forall|i: int, j: int| 0 <= i < j < jobs.len() ==> (#[trigger] jobs[i]).app_id != (#[trigger] jobs[j]).app_id
}

proof fn lemma_job_index_prefix(s: Seq<JobModel>, k: int, app_id: Seq<char>)
    requires
        0 <= k <= s.len(),
        job_index(s.take(k), app_id) is Some,
    ensures
        job_index(s, app_id) == job_index(s.take(k), app_id),
    decreases s.len() - k,
{
    if k < s.len() {
        assert(s.drop_last().take(k) =~= s.take(k));
        lemma_job_index_prefix(s.drop_last(), k, app_id);
    } else {
        assert(s.take(k) =~= s);
    }
}

/// The position found holds a job of the application; when none is found,
/// no job is of it.
pub proof fn lemma_job_index_found(s: Seq<JobModel>, app_id: Seq<char>)
    ensures
        job_index(s, app_id) matches Some(i) ==> 0 <= i < s.len() && s[i].app_id == app_id,
        job_index(s, app_id) is None ==> forall|j: int| 0 <= j < s.len() ==> (#[trigger] s[j]).app_id != app_id,
    decreases s.len(),
{
    if s.len() > 0 {
        lemma_job_index_found(s.drop_last(), app_id);
        if job_index(s, app_id) is None {
            assert forall|j: int| 0 <= j < s.len() implies (#[trigger] s[j]).app_id != app_id by {
                if j < s.len() - 1 {
                    assert(s.drop_last()[j] == s[j]);
                }
            }
        }
    }
}

fn same_text(a: &String, b: &String) -> (r: bool)
    ensures
        r == (a@ == b@),
{
    let v = chars_of(a.as_str());
    chars_eq_str(v.as_slice(), b.as_str())
}

/// The uninstall jobs and the number of launch batches still running.
pub struct JobBoard {
    pub jobs: Vec<ActiveUninstall>,
    pub active_launch_batches: usize,
}

impl JobBoard {
    /// At most `MAX_JOBS` jobs, one per application.
    pub open spec fn wf(&self) -> bool {
        self.jobs@.len() <= MAX_JOBS && unique_ids(job_views(self.jobs@))
    }

    pub fn new() -> (b: JobBoard)
        ensures
            b.wf(),
            b.jobs@.len() == 0,
            b.active_launch_batches == 0,
    {
        JobBoard { jobs: Vec::new(), active_launch_batches: 0 }
    }

    fn find_job(&self, app_id: &String) -> (r: Option<usize>)
        ensures
            match r {
                Some(i) => job_index(job_views(self.jobs@), app_id@) == Some(i as int),
                None => job_index(job_views(self.jobs@), app_id@) is None,
            },
    {
        let ghost views = job_views(self.jobs@);
        let mut i: usize = 0;
        assert(views.take(0) =~= Seq::<JobModel>::empty());
        while i < self.jobs.len()
            invariant
                views == job_views(self.jobs@),
                i <= self.jobs@.len(),
                job_index(views.take(i as int), app_id@) is None,
            decreases self.jobs@.len() - i,
        {
            assert(views.take(i + 1).drop_last() =~= views.take(i as int));
            assert(views.take(i + 1).last() == self.jobs@[i as int]@);
            if same_text(&self.jobs[i].app_id, app_id) {
                proof {
                    lemma_job_index_prefix(views, i + 1, app_id@);
                }
                return Some(i);
            }
            i = i + 1;
        }
        assert(views.take(i as int) =~= views);
        None
    }

    /// Records what an event says of an application's job.
    pub fn upsert_job(
        &mut self,
        app_id: String,
        name: String,
        phase: JobPhase,
        status: String,
        pid: Option<u32>,
        exit_code: Option<i32>,
        elevation_required: bool,
        retry_target: Option<UninstallTarget>,
        now: u64,
    )
        requires
            now + VERIFY_WINDOW_MS <= u64::MAX,
        ensures
            job_views(final(self).jobs@) == upserted_jobs(
                job_views(old(self).jobs@),
                JobUpdate {
                    app_id: app_id@,
                    name: name@,
                    phase,
                    status: status@,
                    pid,
                    exit_code,
                    elevation_required,
                    retry_target,
                },
                now,
            ),
            final(self).active_launch_batches == old(self).active_launch_batches,
            old(self).wf() ==> final(self).wf(),
    {
        let ghost u = JobUpdate {
            app_id: app_id@,
            name: name@,
            phase,
            status: status@,
            pid,
            exit_code,
            elevation_required,
            retry_target,
        };
        let ghost views = job_views(self.jobs@);
        let verifying = phase == JobPhase::Verifying;
        proof {
            lemma_job_index_found(views, app_id@);
        }
        match self.find_job(&app_id) {
            Some(i) => {
                let ghost before = self.jobs@;
                let mut job = self.jobs.remove(i);
                assert(views[i as int] == job@);
                job.name = name;
                job.phase = phase;
                job.status = status;
                if pid.is_some() {
                    job.pid = pid;
                }
                if exit_code.is_some() {
                    job.exit_code = exit_code;
                }
                if verifying {
                    job.verify_until = Some(now + VERIFY_WINDOW_MS);
                    job.next_verify_at = Some(now);
                    job.verify_checks = 0;
                }
                job.elevation_required = elevation_required;
                if retry_target.is_some() {
                    job.retry_target = retry_target;
                }
                assert(job@ == updated_job(views[i as int], u, now));
                self.jobs.insert(i, job);
                assert(self.jobs@ =~= before.update(i as int, job));
                assert(job_views(self.jobs@) =~= views.update(i as int, updated_job(views[i as int], u, now)));
            },
            None => {
                let job = ActiveUninstall {
                    app_id,
                    name,
                    status,
                    phase,
                    pid,
                    exit_code,
                    verify_until: if verifying {
                        Some(now + VERIFY_WINDOW_MS)
                    } else {
                        None
                    },
                    next_verify_at: if verifying {
                        Some(now)
                    } else {
                        None
                    },
                    verify_checks: 0,
                    elevation_required,
                    retry_target,
                };
                assert(job@ == new_job(u, now));
                self.jobs.push(job);
                assert(job_views(self.jobs@) =~= views.push(new_job(u, now)));
            },
        }
        if self.jobs.len() > MAX_JOBS {
            let ghost before = job_views(self.jobs@);
            self.jobs.remove(0);
            assert(job_views(self.jobs@) =~= before.drop_first());
        }
        proof {
            if unique_ids(views) && views.len() <= MAX_JOBS {
                lemma_upsert_keeps_one_job_each(views, u, now);
            }
        }
    }
}

/// An `i32` as `Display` writes it.
pub open spec fn signed_decimal(v: i32) -> Seq<char> {
    if v < 0 {
        seq!['-'] + decimal((-(v as int)) as nat)
    } else {
        decimal(v as nat)
    }
}

fn signed_decimal_chars(v: i32) -> (r: Vec<char>)
    ensures
        r@ == signed_decimal(v),
{
    if v < 0 {
        let magnitude = (-(v as i64)) as u64;
        let digits = decimal_chars(magnitude);
        let mut r: Vec<char> = Vec::new();
        r.push('-');
        append_chars(&mut r, digits.as_slice());
        r
    } else {
        decimal_chars(v as u64)
    }
}

pub open spec fn launching_status(index: usize, total: usize, name: Seq<char>) -> Seq<char> {
    "["@ + decimal(index as nat) + "/"@ + decimal(total as nat) + "] "@ + name
        + " 제거 창을 여는 중입니다."@
}

pub open spec fn launching_job_status() -> Seq<char> {
    "제거 명령 시작 준비 중"@
}

pub open spec fn launched_status(name: Seq<char>, pid: u32) -> Seq<char> {
    name + " 제거 프로세스 실행 중입니다. PID "@ + decimal(pid as nat)
}

pub open spec fn running_job_status(pid: u32) -> Seq<char> {
    "실행 중 - PID "@ + decimal(pid as nat)
}

pub open spec fn exit_code_text(code: Option<i32>) -> Seq<char> {
    match code {
        Some(c) => signed_decimal(c),
        None => "알 수 없음"@,
    }
}

pub open spec fn exited_status(name: Seq<char>) -> Seq<char> {
    name + " 제거 명령 프로세스가 종료되었습니다. 삭제 여부를 자동 확인합니다."@
}

pub open spec fn exited_job_status(code: Option<i32>) -> Seq<char> {
    "명령 프로세스 종료 - 코드 "@ + exit_code_text(code) + ", 목록 제거 여부 자동 확인 중"@
}

pub open spec fn failed_status(name: Seq<char>, elevation_required: bool) -> Seq<char> {
    if elevation_required {
        name + " 제거 명령에 관리자 권한이 필요합니다."@
    } else {
        name + " 제거 명령 실행 실패"@
    }
}

pub open spec fn failed_job_status(message: Seq<char>, elevation_required: bool) -> Seq<char> {
    if elevation_required {
        "관리자 권한 필요 - "@ + message
    } else {
        "실패 - "@ + message
    }
}

pub open spec fn queue_done_status() -> Seq<char> {
    "제거 명령 실행 큐가 끝났습니다. 삭제 여부는 작업 상태에서 자동 확인됩니다."@
}

/// What an event changes: the status line, the job update it makes (none
/// for the end of a batch), and whether the list is scanned again to see
/// whether the application left it.
pub open spec fn event_outcome(e: UninstallEvent) -> (Seq<char>, Option<JobUpdate>, bool) {
    match e {
        UninstallEvent::Launching { app_id, index, total, name } => (
            launching_status(index, total, name@),
            Some(
                JobUpdate {
                    app_id: app_id@,
                    name: name@,
                    phase: JobPhase::Launching,
                    status: launching_job_status(),
                    pid: None,
                    exit_code: None,
                    elevation_required: false,
                    retry_target: None,
                },
            ),
            false,
        ),
        UninstallEvent::Launched { app_id, name, pid } => (
            launched_status(name@, pid),
            Some(
                JobUpdate {
                    app_id: app_id@,
                    name: name@,
                    phase: JobPhase::Running,
                    status: running_job_status(pid),
                    pid: Some(pid),
                    exit_code: None,
                    elevation_required: false,
                    retry_target: None,
                },
            ),
            false,
        ),
        UninstallEvent::Exited { app_id, name, code } => (
            exited_status(name@),
            Some(
                JobUpdate {
                    app_id: app_id@,
                    name: name@,
                    phase: JobPhase::Verifying,
                    status: exited_job_status(code),
                    pid: None,
                    exit_code: code,
                    elevation_required: false,
                    retry_target: None,
                },
            ),
            true,
        ),
        UninstallEvent::Failed { app_id, name, message, elevation_required, target } => (
            failed_status(name@, elevation_required),
            Some(
                JobUpdate {
                    app_id: app_id@,
                    name: name@,
                    phase: JobPhase::Failed,
                    status: failed_job_status(message@, elevation_required),
                    pid: None,
                    exit_code: None,
                    elevation_required,
                    retry_target: target,
                },
            ),
            false,
        ),
        UninstallEvent::Done => (queue_done_status(), None, false),
    }
}

impl JobBoard {
    /// Records an uninstall event. Gives the status line, and whether the
    /// list should be scanned again (when no scan is running).
    pub fn apply_event(&mut self, event: UninstallEvent, now: u64) -> (r: (String, bool))
        requires
            now + VERIFY_WINDOW_MS <= u64::MAX,
        ensures
            old(self).wf() ==> final(self).wf(),
            old(self).wf() ==> match event {
                UninstallEvent::Failed { app_id, elevation_required, target, .. } => job_index(
                    job_views(final(self).jobs@),
                    app_id@,
                ) matches Some(i) && {
                    &&& final(self).jobs@[i].phase == JobPhase::Failed
                    &&& final(self).jobs@[i].elevation_required == elevation_required
                    &&& target is Some ==> final(self).jobs@[i].retry_target == target
                },
                _ => true,
            },
            r.0@ == event_outcome(event).0,
            r.1 == event_outcome(event).2,
            match event_outcome(event).1 {
                Some(u) => job_views(final(self).jobs@) == upserted_jobs(
                    job_views(old(self).jobs@),
                    u,
                    now,
                ) && final(self).active_launch_batches == old(self).active_launch_batches,
                None => final(self).jobs@ == old(self).jobs@
                    && final(self).active_launch_batches == if old(self).active_launch_batches > 0 {
                    (old(self).active_launch_batches - 1) as usize
                } else {
                    0
                },
            },
    {
        let ghost ev = event;
        let ghost before = job_views(self.jobs@);
        let r = match event {
            UninstallEvent::Launching { app_id, index, total, name } => {
                let mut st = chars_of("[");
                append_chars(&mut st, decimal_chars(index as u64).as_slice());
                append_str(&mut st, "/");
                append_chars(&mut st, decimal_chars(total as u64).as_slice());
                append_str(&mut st, "] ");
                append_str(&mut st, name.as_str());
                append_str(&mut st, " 제거 창을 여는 중입니다.");
                self.upsert_job(
                    app_id,
                    name,
                    JobPhase::Launching,
                    "제거 명령 시작 준비 중".to_owned(),
                    None,
                    None,
                    false,
                    None,
                    now,
                );
                (string_of(st.as_slice()), false)
            },
            UninstallEvent::Launched { app_id, name, pid } => {
                let mut st = chars_of(name.as_str());
                append_str(&mut st, " 제거 프로세스 실행 중입니다. PID ");
                append_chars(&mut st, decimal_chars(pid as u64).as_slice());
                let mut job_status = chars_of("실행 중 - PID ");
                append_chars(&mut job_status, decimal_chars(pid as u64).as_slice());
                self.upsert_job(
                    app_id,
                    name,
                    JobPhase::Running,
                    string_of(job_status.as_slice()),
                    Some(pid),
                    None,
                    false,
                    None,
                    now,
                );
                (string_of(st.as_slice()), false)
            },
            UninstallEvent::Exited { app_id, name, code } => {
                let mut st = chars_of(name.as_str());
                append_str(&mut st, " 제거 명령 프로세스가 종료되었습니다. 삭제 여부를 자동 확인합니다.");
                let code_text = match code {
                    Some(c) => signed_decimal_chars(c),
                    None => chars_of("알 수 없음"),
                };
                let mut job_status = chars_of("명령 프로세스 종료 - 코드 ");
                append_chars(&mut job_status, code_text.as_slice());
                append_str(&mut job_status, ", 목록 제거 여부 자동 확인 중");
                self.upsert_job(
                    app_id,
                    name,
                    JobPhase::Verifying,
                    string_of(job_status.as_slice()),
                    None,
                    code,
                    false,
                    None,
                    now,
                );
                (string_of(st.as_slice()), true)
            },
            UninstallEvent::Failed { app_id, name, message, elevation_required, target } => {
                let mut st = chars_of(name.as_str());
                let mut job_status = if elevation_required {
                    append_str(&mut st, " 제거 명령에 관리자 권한이 필요합니다.");
                    chars_of("관리자 권한 필요 - ")
                } else {
                    append_str(&mut st, " 제거 명령 실행 실패");
                    chars_of("실패 - ")
                };
                append_str(&mut job_status, message.as_str());
                self.upsert_job(
                    app_id,
                    name,
                    JobPhase::Failed,
                    string_of(job_status.as_slice()),
                    None,
                    None,
                    elevation_required,
                    target,
                    now,
                );
                (string_of(st.as_slice()), false)
            },
            UninstallEvent::Done => {
                if self.active_launch_batches > 0 {
                    self.active_launch_batches = self.active_launch_batches - 1;
                }
                (
                    "제거 명령 실행 큐가 끝났습니다. 삭제 여부는 작업 상태에서 자동 확인됩니다.".to_owned(),
                    false,
                )
            },
        };
        proof {
            if ev is Failed && before.len() <= MAX_JOBS && unique_ids(before) {
                lemma_failed_event_keeps_retry(before, ev, now);
                let after = job_views(self.jobs@);
                assert(after == upserted_jobs(before, event_outcome(ev).1->0, now));
                let i = job_index(after, event_outcome(ev).1->0.app_id)->0;
                lemma_job_index_found(after, event_outcome(ev).1->0.app_id);
                assert(after[i] == self.jobs@[i]@);
            }
        }
        r
    }
}

pub open spec fn retry_status(checks: u32) -> Seq<char> {
    "아직 목록에 있음 - 제거 창 진행 중일 수 있어 자동 재확인 중 ("@ + decimal(checks as nat) + "회)"@
}

pub open spec fn still_listed_status() -> Seq<char> {
    "제거 완료를 확인하지 못함 - Windows 목록에 아직 남아 있음"@
}

pub open spec fn removed_status() -> Seq<char> {
    "목록에서 제거 확인"@
}

pub open spec fn is_checking(phase: JobPhase) -> bool {
    phase == JobPhase::Verifying || phase == JobPhase::StillListed
}

/// A job after the list was read again: a job being checked is confirmed
/// removed when its application is gone; while it is still listed the
/// check is repeated until the verification window ends, and then the job
/// is marked still listed.
pub open spec fn refreshed_job(j: JobModel, listed: bool, now: u64) -> JobModel {
    if !is_checking(j.phase) {
        j
    } else if listed {
        let checks = (j.verify_checks + 1) as u32;
        if j.verify_until matches Some(until) && now <= until {
            JobModel {
                verify_checks: checks,
                phase: JobPhase::Verifying,
                next_verify_at: Some((now + VERIFY_INTERVAL_MS) as u64),
                status: retry_status(checks),
                ..j
            }
        } else {
            JobModel {
                verify_checks: checks,
                phase: JobPhase::StillListed,
                next_verify_at: None,
                status: still_listed_status(),
                ..j
            }
        }
    } else {
        JobModel {
            phase: JobPhase::VerifiedRemoved,
            next_verify_at: None,
            status: removed_status(),
            ..j
        }
    }
}

pub open spec fn refreshed_jobs(jobs: Seq<JobModel>, listed_ids: Seq<Seq<char>>, now: u64) -> Seq<JobModel> {
    jobs.map_values(|j: JobModel| refreshed_job(j, listed_ids.contains(j.app_id), now))
}

/// A job being verified that has reached its next check.
pub open spec fn check_due(j: JobModel, now: u64) -> bool {
    j.phase == JobPhase::Verifying && match j.next_verify_at {
        Some(next) => now >= next,
        None => false,
    }
}

/// A scan is due when a job being verified has reached its next check.
pub open spec fn scan_due(jobs: Seq<JobModel>, now: u64) -> bool {
    exists|i: int| 0 <= i < jobs.len() && check_due(#[trigger] jobs[i], now)
}

/// The jobs that are not finished: launching, running or being verified.
pub open spec fn unfinished_jobs(jobs: Seq<JobModel>) -> Seq<JobModel>
    decreases jobs.len(),
{
    if jobs.len() == 0 {
        Seq::empty()
    } else {
        let prev = unfinished_jobs(jobs.drop_last());
        let p = jobs.last().phase;
        if p == JobPhase::Launching || p == JobPhase::Running || p == JobPhase::Verifying {
            prev.push(jobs.last())
        } else {
            prev
        }
    }
}

fn contains_text(ids: &[String], id: &String) -> (r: bool)
    ensures
        r == ids@.map_values(|s: String| s@).contains(id@),
{
    let ghost s = ids@.map_values(|s: String| s@);
    let mut i: usize = 0;
    while i < ids.len()
        invariant
            s == ids@.map_values(|s: String| s@),
            i <= ids@.len(),
            forall|j: int| 0 <= j < i ==> s[j] != id@,
        decreases ids@.len() - i,
    {
        if same_text(&ids[i], id) {
            assert(s[i as int] == id@);
            return true;
        }
        i = i + 1;
    }
    false
}

impl JobBoard {
    /// Updates the jobs being checked against the application ids the list
    /// now holds.
    pub fn refresh_job_verification(&mut self, listed_ids: &[String], now: u64)
        requires
            now + VERIFY_WINDOW_MS <= u64::MAX,
            forall|i: int| 0 <= i < old(self).jobs@.len() ==> (#[trigger] old(self).jobs@[i]).verify_checks < u32::MAX,
        ensures
            job_views(final(self).jobs@) == refreshed_jobs(
                job_views(old(self).jobs@),
                listed_ids@.map_values(|s: String| s@),
                now,
            ),
            final(self).active_launch_batches == old(self).active_launch_batches,
            old(self).wf() ==> final(self).wf(),
    {
        let ghost ids = listed_ids@.map_values(|s: String| s@);
        let ghost orig = job_views(self.jobs@);
        let ghost n = self.jobs@.len();
        let ghost batches = self.active_launch_batches;
        let mut done: Vec<ActiveUninstall> = Vec::new();
        let ghost mut k: int = 0;
        assert(orig.skip(0) =~= orig);
        while self.jobs.len() > 0
            invariant
                0 <= k <= n,
                self.active_launch_batches == batches,
                orig.len() == n,
                self.jobs@.len() == n - k,
                job_views(self.jobs@) == orig.skip(k),
                forall|i: int| 0 <= i < self.jobs@.len() ==> (#[trigger] self.jobs@[i]).verify_checks < u32::MAX,
                job_views(done@) == refreshed_jobs(orig.take(k), ids, now),
                now + VERIFY_WINDOW_MS <= u64::MAX,
                ids == listed_ids@.map_values(|s: String| s@),
            decreases self.jobs@.len(),
        {
            let ghost rest = self.jobs@;
            let mut job = self.jobs.remove(0);
            assert(job_views(rest)[0] == rest[0]@);
            assert(orig.skip(k)[0] == orig[k]);
            assert(job@ == orig[k]);
            assert(job.verify_checks < u32::MAX) by {
                assert(rest[0] == job);
            }
            let ghost jv = job@;
            if job.phase == JobPhase::Verifying || job.phase == JobPhase::StillListed {
                if contains_text(listed_ids, &job.app_id) {
                    job.verify_checks = job.verify_checks + 1;
                    let within = match job.verify_until {
                        Some(until) => now <= until,
                        None => false,
                    };
                    if within {
                        job.phase = JobPhase::Verifying;
                        job.next_verify_at = Some(now + VERIFY_INTERVAL_MS);
                        let mut st = chars_of("아직 목록에 있음 - 제거 창 진행 중일 수 있어 자동 재확인 중 (");
                        append_chars(&mut st, decimal_chars(job.verify_checks as u64).as_slice());
                        append_str(&mut st, "회)");
                        job.status = string_of(st.as_slice());
                    } else {
                        job.phase = JobPhase::StillListed;
                        job.next_verify_at = None;
                        job.status = "제거 완료를 확인하지 못함 - Windows 목록에 아직 남아 있음".to_owned();
                    }
                } else {
                    job.phase = JobPhase::VerifiedRemoved;
                    job.next_verify_at = None;
                    job.status = "목록에서 제거 확인".to_owned();
                }
            }
            assert(job@ == refreshed_job(jv, ids.contains(jv.app_id), now));
            let ghost before = job_views(done@);
            done.push(job);
            proof {
                assert(job_views(done@) =~= before.push(refreshed_job(jv, ids.contains(jv.app_id), now)));
                assert(orig.take(k + 1) =~= orig.take(k).push(jv));
                assert(refreshed_jobs(orig.take(k + 1), ids, now) =~= refreshed_jobs(orig.take(k), ids, now).push(
                    refreshed_job(jv, ids.contains(jv.app_id), now),
                ));
                assert(self.jobs@ =~= rest.skip(1));
                assert(job_views(self.jobs@) =~= job_views(rest).skip(1));
                assert(orig.skip(k).skip(1) =~= orig.skip(k + 1));
                assert forall|i: int| 0 <= i < self.jobs@.len() implies (#[trigger] self.jobs@[i]).verify_checks < u32::MAX by {
                    assert(self.jobs@[i] == rest[i + 1]);
                }
                k = k + 1;
            }
        }
        assert(orig.take(k) =~= orig);
        self.jobs = done;
        proof {
            let r = job_views(self.jobs@);
            if unique_ids(orig) {
                assert forall|a: int, b: int| 0 <= a < b < r.len() implies (#[trigger] r[a]).app_id
                    != (#[trigger] r[b]).app_id by {
                    assert(r[a].app_id == orig[a].app_id);
                    assert(r[b].app_id == orig[b].app_id);
                }
            }
        }
    }

    /// Whether a job being verified is due for another look at the list.
    pub fn should_scan(&self, now: u64) -> (r: bool)
        ensures
            r == scan_due(job_views(self.jobs@), now),
    {
        let ghost v = job_views(self.jobs@);
        let mut i: usize = 0;
        while i < self.jobs.len()
            invariant
                v == job_views(self.jobs@),
                i <= self.jobs@.len(),
                forall|j: int| 0 <= j < i ==> !check_due(#[trigger] v[j], now),
            decreases self.jobs@.len() - i,
        {
            let job = &self.jobs[i];
            assert(v[i as int] == job@);
            let due = match job.next_verify_at {
                Some(next) => now >= next,
                None => false,
            };
            if job.phase == JobPhase::Verifying && due {
                assert(check_due(v[i as int], now));
                return true;
            }
            i = i + 1;
        }
        false
    }

    /// Whether any job is being verified.
    pub fn any_verifying(&self) -> (r: bool)
        ensures
            r == exists|i: int| 0 <= i < self.jobs@.len() && (#[trigger] self.jobs@[i]).phase == JobPhase::Verifying,
    {
        let mut i: usize = 0;
        while i < self.jobs.len()
            invariant
                i <= self.jobs@.len(),
                forall|j: int| 0 <= j < i ==> (#[trigger] self.jobs@[j]).phase != JobPhase::Verifying,
            decreases self.jobs@.len() - i,
        {
            if self.jobs[i].phase == JobPhase::Verifying {
                return true;
            }
            i = i + 1;
        }
        false
    }

    /// Drops the finished jobs: failed, confirmed removed, or still listed.
    pub fn clear_finished(&mut self)
        ensures
            old(self).wf() ==> final(self).wf(),
            job_views(final(self).jobs@) == unfinished_jobs(job_views(old(self).jobs@)),
            final(self).active_launch_batches == old(self).active_launch_batches,
    {
        let ghost orig = job_views(self.jobs@);
        let ghost n = self.jobs@.len();
        let ghost batches = self.active_launch_batches;
        let mut kept: Vec<ActiveUninstall> = Vec::new();
        let ghost mut k: int = 0;
        assert(orig.skip(0) =~= orig);
        while self.jobs.len() > 0
            invariant
                0 <= k <= n,
                self.active_launch_batches == batches,
                orig.len() == n,
                self.jobs@.len() == n - k,
                job_views(self.jobs@) == orig.skip(k),
                job_views(kept@) == unfinished_jobs(orig.take(k)),
            decreases self.jobs@.len(),
        {
            let ghost rest = self.jobs@;
            let job = self.jobs.remove(0);
            assert(job_views(rest)[0] == rest[0]@);
            assert(orig.skip(k)[0] == orig[k]);
            assert(job@ == orig[k]);
            let ghost jv = job@;
            assert(orig.take(k + 1).drop_last() =~= orig.take(k));
            assert(orig.take(k + 1).last() == jv);
            if job.phase == JobPhase::Launching || job.phase == JobPhase::Running || job.phase
                == JobPhase::Verifying {
                let ghost before = job_views(kept@);
                kept.push(job);
                assert(job_views(kept@) =~= before.push(jv));
            }
            proof {
                assert(self.jobs@ =~= rest.skip(1));
                assert(job_views(self.jobs@) =~= job_views(rest).skip(1));
                assert(orig.skip(k).skip(1) =~= orig.skip(k + 1));
                k = k + 1;
            }
        }
        assert(orig.take(k) =~= orig);
        self.jobs = kept;
        proof {
            lemma_unfinished_jobs_from(orig);
        }
    }

    /// Counts one more launch batch as running.
    pub fn start_batch(&mut self)
        requires
            old(self).active_launch_batches < usize::MAX,
        ensures
            final(self).active_launch_batches == old(self).active_launch_batches + 1,
            final(self).jobs@ == old(self).jobs@,
            old(self).wf() ==> final(self).wf(),
    {
        self.active_launch_batches = self.active_launch_batches + 1;
    }
}

proof fn lemma_job_index_at(s: Seq<JobModel>, app_id: Seq<char>, i: int)
    requires
        0 <= i < s.len(),
        s[i].app_id == app_id,
        forall|j: int| 0 <= j < i ==> (#[trigger] s[j]).app_id != app_id,
    ensures
        job_index(s, app_id) == Some(i),
    decreases s.len(),
{
    if i < s.len() - 1 {
        lemma_job_index_at(s.drop_last(), app_id, i);
    } else {
        lemma_job_index_found(s.drop_last(), app_id);
        match job_index(s.drop_last(), app_id) {
            Some(k) => {
                assert(s.drop_last()[k] == s[k]);
            },
            None => {},
        }
    }
}

/// Recording an event keeps at most twelve jobs with one job per
/// application, and leaves the application's job with the event's name,
/// phase and status, the only job of that application; a job that starts
/// being verified starts its verification window now; and a new job that
/// makes one job too many pushes out the oldest.
pub proof fn lemma_upsert_keeps_one_job_each(jobs: Seq<JobModel>, u: JobUpdate, now: u64)
    requires
        jobs.len() <= MAX_JOBS,
        unique_ids(jobs),
    ensures
        upserted_jobs(jobs, u, now).len() <= MAX_JOBS,
        unique_ids(upserted_jobs(jobs, u, now)),
        job_index(upserted_jobs(jobs, u, now), u.app_id) matches Some(i) && {
            let j = upserted_jobs(jobs, u, now)[i];
            &&& j.name == u.name && j.phase == u.phase && j.status == u.status
            &&& u.phase == JobPhase::Verifying ==> j.verify_until == Some((now + VERIFY_WINDOW_MS) as u64)
                && j.next_verify_at == Some(now) && j.verify_checks == 0
            &&& forall|k: int|
                0 <= k < upserted_jobs(jobs, u, now).len() && (#[trigger] upserted_jobs(jobs, u, now)[k]).app_id
                    == u.app_id ==> k == i
            &&& j.elevation_required == u.elevation_required
            &&& u.retry_target is Some ==> j.retry_target == u.retry_target
        },
        job_index(jobs, u.app_id) is None && jobs.len() == MAX_JOBS ==> upserted_jobs(jobs, u, now)
            == jobs.skip(1).push(new_job(u, now)),
{
    lemma_job_index_found(jobs, u.app_id);
    let r = upserted_jobs(jobs, u, now);
    match job_index(jobs, u.app_id) {
        Some(i) => {
            let next = jobs.update(i, updated_job(jobs[i], u, now));
            assert(r == next);
            assert forall|a: int, b: int| 0 <= a < b < r.len() implies (#[trigger] r[a]).app_id != (#[trigger] r[b]).app_id by {
                assert(r[a].app_id == jobs[a].app_id);
                assert(r[b].app_id == jobs[b].app_id);
            }
            assert forall|j: int| 0 <= j < i implies (#[trigger] r[j]).app_id != u.app_id by {
                assert(r[j].app_id == jobs[j].app_id);
            }
            lemma_job_index_at(r, u.app_id, i);
        },
        None => {
            let next = jobs.push(new_job(u, now));
            assert forall|a: int, b: int| 0 <= a < b < next.len() implies (#[trigger] next[a]).app_id != (#[trigger] next[b]).app_id by {
                if b == jobs.len() {
                    assert(next[a] == jobs[a]);
                } else {
                    assert(next[a] == jobs[a] && next[b] == jobs[b]);
                }
            }
            if next.len() > MAX_JOBS {
                assert(r == next.drop_first());
                assert forall|a: int, b: int| 0 <= a < b < r.len() implies (#[trigger] r[a]).app_id != (#[trigger] r[b]).app_id by {
                    assert(r[a] == next[a + 1] && r[b] == next[b + 1]);
                }
                assert forall|j: int| 0 <= j < r.len() - 1 implies (#[trigger] r[j]).app_id != u.app_id by {
                    assert(r[j] == next[j + 1]);
                    assert(next[j + 1] == jobs[j + 1]);
                }
                lemma_job_index_at(r, u.app_id, r.len() - 1);
            } else {
                assert forall|j: int| 0 <= j < r.len() - 1 implies (#[trigger] r[j]).app_id != u.app_id by {
                    assert(r[j] == jobs[j]);
                }
                lemma_job_index_at(r, u.app_id, r.len() - 1);
            }
        },
    }
}

/// Refreshing keeps each job's application, so the position of an
/// application's job stays the same.
proof fn lemma_refresh_keeps_index(jobs: Seq<JobModel>, listed: Seq<Seq<char>>, now: u64, app_id: Seq<char>, i: int)
    requires
        unique_ids(jobs),
        job_index(jobs, app_id) == Some(i),
    ensures
        job_index(refreshed_jobs(jobs, listed, now), app_id) == Some(i),
        refreshed_jobs(jobs, listed, now)[i] == refreshed_job(jobs[i], listed.contains(app_id), now),
{
    lemma_job_index_found(jobs, app_id);
    let r = refreshed_jobs(jobs, listed, now);
    assert forall|j: int| 0 <= j < i implies (#[trigger] r[j]).app_id != app_id by {
        assert(r[j].app_id == jobs[j].app_id);
        assert(jobs[j].app_id != jobs[i].app_id);
    }
    lemma_job_index_at(r, app_id, i);
}

/// What follows the end of an uninstall command: once it has exited, the
/// next look at the list confirms its application removed when the list no
/// longer holds it; while the list still holds it, it is checked again
/// (counting one check) until the verification window has passed, and
/// after that it is marked still listed.
pub proof fn lemma_exit_then_list_checked(
    jobs: Seq<JobModel>,
    event: UninstallEvent,
    now: u64,
    later: u64,
    listed: Seq<Seq<char>>,
)
    requires
        event is Exited,
        jobs.len() <= MAX_JOBS,
        unique_ids(jobs),
        now + VERIFY_WINDOW_MS <= u64::MAX,
    ensures
        event_outcome(event).2,
        ({
            let u = event_outcome(event).1->0;
            let checked = refreshed_jobs(upserted_jobs(jobs, u, now), listed, later);
            job_index(checked, u.app_id) matches Some(i) && {
                let j = checked[i];
                &&& !listed.contains(u.app_id) ==> j.phase == JobPhase::VerifiedRemoved
                    && j.status == removed_status()
                &&& listed.contains(u.app_id) && later <= now + VERIFY_WINDOW_MS ==> j.phase
                    == JobPhase::Verifying && j.verify_checks == 1 && j.next_verify_at == Some(
                    (later + VERIFY_INTERVAL_MS) as u64,
                )
                &&& listed.contains(u.app_id) && later > now + VERIFY_WINDOW_MS ==> j.phase
                    == JobPhase::StillListed && j.status == still_listed_status()
            }
        }),
{
    let u = event_outcome(event).1->0;
    assert(u.phase == JobPhase::Verifying);
    lemma_upsert_keeps_one_job_each(jobs, u, now);
    let up = upserted_jobs(jobs, u, now);
    let i = job_index(up, u.app_id)->0;
    lemma_refresh_keeps_index(up, listed, later, u.app_id, i);
}

/// Clearing keeps jobs of the list, in order: fewer or as many, and one
/// per application when there was one per application.
proof fn lemma_unfinished_jobs_from(jobs: Seq<JobModel>)
    ensures
        unfinished_jobs(jobs).len() <= jobs.len(),
        forall|k: int|
            0 <= k < unfinished_jobs(jobs).len() ==> exists|i: int|
                0 <= i < jobs.len() && jobs[i] == #[trigger] unfinished_jobs(jobs)[k],
        unique_ids(jobs) ==> unique_ids(unfinished_jobs(jobs)),
    decreases jobs.len(),
{
    if jobs.len() > 0 {
        let jp = jobs.drop_last();
        lemma_unfinished_jobs_from(jp);
        let prev = unfinished_jobs(jp);
        let u = unfinished_jobs(jobs);
        assert forall|k: int| 0 <= k < u.len() implies exists|i: int|
            0 <= i < jobs.len() && jobs[i] == #[trigger] u[k] by {
            if k < prev.len() {
                assert(u[k] == prev[k]);
                let i = choose|i: int| 0 <= i < jp.len() && jp[i] == prev[k];
                assert(jobs[i] == jp[i]);
            } else {
                assert(u[k] == jobs[jobs.len() - 1]);
            }
        }
        if unique_ids(jobs) {
            assert forall|a: int, b: int| 0 <= a < b < jp.len() implies (#[trigger] jp[a]).app_id
                != (#[trigger] jp[b]).app_id by {
                assert(jp[a] == jobs[a] && jp[b] == jobs[b]);
            }
            assert forall|a: int, b: int| 0 <= a < b < u.len() implies (#[trigger] u[a]).app_id
                != (#[trigger] u[b]).app_id by {
                if b < prev.len() {
                    assert(u[a] == prev[a] && u[b] == prev[b]);
                } else {
                    assert(u[a] == prev[a]);
                    assert(u[b] == jobs[jobs.len() - 1]);
                    let i = choose|i: int| 0 <= i < jp.len() && jp[i] == #[trigger] prev[a];
                    assert(jobs[i] == jp[i]);
                    assert(jobs[i].app_id != jobs[jobs.len() - 1].app_id);
                }
            }
        }
    }
}

impl ActiveUninstall {
    /// Whether the job offers a retry with administrator rights: its failure
    /// asked for them and the job was handed back.
    pub fn offers_elevated_retry(&self) -> (r: bool)
        ensures
            r == (self.elevation_required && self.retry_target is Some),
    {
        self.elevation_required && self.retry_target.is_some()
    }
}

/// A failed launch is recorded with what it says: the application's job
/// is marked failed, with the failure's need for administrator rights, and
/// a job the failure hands back is kept as the job to retry; so a failure
/// that asks for administrator rights and hands its job back offers a
/// retry with them.
pub proof fn lemma_failed_event_keeps_retry(jobs: Seq<JobModel>, event: UninstallEvent, now: u64)
    requires
        event is Failed,
        jobs.len() <= MAX_JOBS,
        unique_ids(jobs),
    ensures
        ({
            let after = upserted_jobs(jobs, event_outcome(event).1->0, now);
            match event {
                UninstallEvent::Failed { app_id, elevation_required, target, .. } => job_index(
                    after,
                    app_id@,
                ) matches Some(i) && {
                    &&& after[i].phase == JobPhase::Failed
                    &&& after[i].elevation_required == elevation_required
                    &&& target is Some ==> after[i].retry_target == target
                    &&& elevation_required && target is Some ==> after[i].elevation_required
                        && after[i].retry_target is Some
                },
                _ => true,
            }
        }),
{
    lemma_upsert_keeps_one_job_each(jobs, event_outcome(event).1->0, now);
}

} // verus!
