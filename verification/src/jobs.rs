//! Background work: importing folders, bringing folder metadata and waveforms up to date, and
//! analysing tracks.

use vstd::prelude::*;

use crate::models::{text_of, texts};
use crate::text::{append_decimal, decimal, file_name, file_name_of, join, joined_by, same};

verus! {

/// A line of progress of an import.
pub struct ScanProgress {
    pub job_id: String,
    pub done: usize,
    pub total: usize,
    pub current: String,
    pub phase: &'static str,
    /// The last line of an import always holds the reason, or that there is none.
    pub error: Option<String>,
}

/// The last line of an import.
pub open spec fn is_scan_end(
    event: ScanProgress,
    job_id: Seq<char>,
    done: usize,
    total: usize,
    error: Option<Seq<char>>,
) -> bool {
    &&& event.job_id@ == job_id
    &&& event.done == done
    &&& event.total == total
    &&& event.current@ == Seq::<char>::empty()
    &&& event.phase@ == "done"@
    &&& text_of(event.error) == error
}

/// The last line of an import, of one shape for success and failure.
pub fn scan_done_event(job_id: &str, done: usize, total: usize, error: Option<String>) -> (r:
    ScanProgress)
    ensures
        is_scan_end(r, job_id@, done, total, text_of(error)),
{
    let current = String::new();
    assert(current@ =~= Seq::<char>::empty());
    ScanProgress { job_id: job_id.to_owned(), done, total, current, phase: "done", error }
}

/// The system that the service runs on, as far as its advice differs.
#[derive(Clone, Copy, PartialEq, Eq, Debug, Structural)]
pub enum System {
    Android,
    Macos,
    Other,
}

/// The folders that a message names: the first one, and how many there are.
pub open spec fn root_list(roots: Seq<Seq<char>>) -> Seq<char> {
    if roots.len() == 0 {
        Seq::empty()
    } else if roots.len() == 1 {
        roots[0]
    } else {
        roots[0] + " 等 "@ + decimal(roots.len()) + " 个文件夹"@
    }
}

pub open spec fn unreadable_message(
    roots: Seq<Seq<char>>,
    all_failed: bool,
    system: System,
) -> Seq<char> {
    let list = root_list(roots);
    if !all_failed {
        "部分文件夹无法读取："@ + list + "（其余内容已导入）"@
    } else {
        match system {
            System::Android => "没有权限读取所选文件夹（"@ + list
                + "）。请到 系统设置 → 应用 → KDJ → 权限 中允许媒体权限后重试"@,
            System::Macos => "没有权限读取所选文件夹（"@ + list
                + "）。请在 系统设置 → 隐私与安全性 → 文件与文件夹 中允许 KDJ 后重试"@,
            System::Other => "无法读取所选文件夹（"@ + list
                + "）：没有访问权限，或文件夹已断开"@,
        }
    }
}

fn root_list_text(roots: &Vec<String>) -> (r: String)
    ensures
        r@ == root_list(texts(roots@)),
{
    if roots.len() == 0 {
        let r = String::new();
        assert(r@ =~= Seq::<char>::empty());
        return r;
    }
    assert(texts(roots@)[0] == roots[0]@);
    let mut r = roots[0].clone();
    if roots.len() > 1 {
        r.append(" 等 ");
        append_decimal(&mut r, roots.len() as u64);
        r.append(" 个文件夹");
    }
    r
}

/// What an import says of folders that could not be read. Where nothing was imported it is a
/// failure, otherwise a remark.
pub fn unreadable_roots_message(roots: &Vec<String>, all_failed: bool, system: System) -> (r:
    String)
    ensures
        r@ == unreadable_message(texts(roots@), all_failed, system),
{
    let list = root_list_text(roots);
    let (head, tail): (&'static str, &'static str) = if !all_failed {
        ("部分文件夹无法读取：", "（其余内容已导入）")
    } else {
        match system {
            System::Android => (
                "没有权限读取所选文件夹（",
                "）。请到 系统设置 → 应用 → KDJ → 权限 中允许媒体权限后重试",
            ),
            System::Macos => (
                "没有权限读取所选文件夹（",
                "）。请在 系统设置 → 隐私与安全性 → 文件与文件夹 中允许 KDJ 后重试",
            ),
            System::Other => (
                "无法读取所选文件夹（",
                "）：没有访问权限，或文件夹已断开",
            ),
        }
    };
    let mut r = head.to_owned();
    r.append(list.as_str());
    r.append(tail);
    r
}

/// What an import found.
pub struct ScanReport {
    pub track_ids: Vec<i64>,
    pub unreadable_roots: Vec<String>,
}

/// What follows an import: its last line, and the tracks that clients are told of.
pub struct ScanEnd {
    pub event: ScanProgress,
    pub updated: Option<Vec<i64>>,
    /// Whether the new tracks are to be analysed.
    pub analyze: bool,
}

/// Ends an import. The setting for automatic analysis is the one that holds now, not the one that
/// held when the import began.
pub fn scan_end(
    job_id: &str,
    result: Result<ScanReport, String>,
    analyze: bool,
    auto_analyze: bool,
    system: System,
) -> (r: ScanEnd)
    ensures
        match result {
            Ok(report) => {
                let count = report.track_ids@.len();
                &&& is_scan_end(
                    r.event,
                    job_id@,
                    count as usize,
                    count as usize,
                    if report.unreadable_roots@.len() == 0 {
                        None
                    } else {
                        Some(unreadable_message(texts(report.unreadable_roots@), count == 0, system))
                    },
                )
                &&& r.updated matches Some(ids) && ids@ == report.track_ids@
                &&& r.analyze == (analyze && auto_analyze && count > 0)
            },
            Err(reason) => {
                &&& is_scan_end(r.event, job_id@, 0, 0, Some(reason@))
                &&& r.updated is None
                &&& !r.analyze
            },
        },
{
    match result {
        Ok(report) => {
            let total: usize = report.track_ids.len();
            let error: Option<String> = if report.unreadable_roots.len() == 0 {
                None
            } else {
                Some(unreadable_roots_message(&report.unreadable_roots, total == 0, system))
            };
            ScanEnd {
                event: scan_done_event(job_id, total, total, error),
                updated: Some(report.track_ids),
                analyze: analyze && auto_analyze && total > 0,
            }
        },
        Err(reason) => ScanEnd {
            event: scan_done_event(job_id, 0, 0, Some(reason)),
            updated: None,
            analyze: false,
        },
    }
}

/// Which maintenance jobs run: at most one of each kind.
pub struct MaintenanceRegistry {
    pub folder_metadata: Option<String>,
    pub waveform: Option<String>,
}

/// The job of a slot after a claim: the one that runs already, or the new one.
pub open spec fn claimed(slot: Option<Seq<char>>, proposed: Seq<char>) -> Seq<char> {
    match slot {
        Some(running) => running,
        None => proposed,
    }
}

/// A slot after a job has ended: only that job leaves it.
pub open spec fn finished(slot: Option<Seq<char>>, job_id: Seq<char>) -> Option<Seq<char>> {
    if slot == Some(job_id) {
        None
    } else {
        slot
    }
}

impl Default for MaintenanceRegistry {
    fn default() -> (r: Self)
        ensures
            text_of(r.folder_metadata) is None,
            text_of(r.waveform) is None,
    {
        MaintenanceRegistry { folder_metadata: None, waveform: None }
    }
}

impl MaintenanceRegistry {
    pub fn claim(slot: &mut Option<String>, proposed: String) -> (r: (String, bool))
        ensures
            r.0@ == claimed(text_of(*old(slot)), proposed@),
            r.1 == (*old(slot) is None),
            text_of(*final(slot)) == Some(r.0@),
    {
        if let Some(existing) = slot.as_ref() {
            return (existing.clone(), false);
        }
        *slot = Some(proposed.clone());
        (proposed, true)
    }

    pub fn finish(slot: &mut Option<String>, job_id: &str)
        ensures
            text_of(*final(slot)) == finished(text_of(*old(slot)), job_id@),
    {
        let ends: bool = match slot.as_ref() {
            Some(active) => same(active.as_str(), job_id),
            None => false,
        };
        if ends {
            *slot = None;
        }
    }

    pub fn claim_folder(&mut self, proposed: String) -> (r: (String, bool))
        ensures
            r.0@ == claimed(text_of(old(self).folder_metadata), proposed@),
            r.1 == (old(self).folder_metadata is None),
            text_of(final(self).folder_metadata) == Some(r.0@),
            final(self).waveform == old(self).waveform,
    {
        Self::claim(&mut self.folder_metadata, proposed)
    }

    pub fn finish_folder(&mut self, job_id: &str)
        ensures
            text_of(final(self).folder_metadata) == finished(
                text_of(old(self).folder_metadata),
                job_id@,
            ),
            final(self).waveform == old(self).waveform,
    {
        Self::finish(&mut self.folder_metadata, job_id);
    }

    pub fn claim_waveform(&mut self, proposed: String) -> (r: (String, bool))
        ensures
            r.0@ == claimed(text_of(old(self).waveform), proposed@),
            r.1 == (old(self).waveform is None),
            text_of(final(self).waveform) == Some(r.0@),
            final(self).folder_metadata == old(self).folder_metadata,
    {
        Self::claim(&mut self.waveform, proposed)
    }

    pub fn finish_waveform(&mut self, job_id: &str)
        ensures
            text_of(final(self).waveform) == finished(text_of(old(self).waveform), job_id@),
            final(self).folder_metadata == old(self).folder_metadata,
    {
        Self::finish(&mut self.waveform, job_id);
    }
}

/// While a job runs, every further claim of its kind is answered with that job; once it has ended,
/// the next claim starts a new one.
pub proof fn maintenance_is_single_flight(running: Seq<char>, proposed: Seq<char>, other: Seq<char>)
    requires
        other != running,
    ensures
        claimed(Some(running), proposed) == running,
        claimed(finished(Some(running), other), proposed) == running,
        claimed(finished(Some(running), running), proposed) == proposed,
{
}

/// A line of progress of a maintenance job.
pub struct MaintenanceProgress {
    pub job_id: String,
    pub kind: &'static str,
    pub done: usize,
    pub total: usize,
    pub current: String,
    pub phase: &'static str,
    pub error: Option<String>,
    pub changed: Option<usize>,
    pub failed: Option<usize>,
}

#[verifier::ext_equal]
pub struct MaintenanceModel {
    pub job_id: Seq<char>,
    pub kind: Seq<char>,
    pub done: usize,
    pub total: usize,
    pub current: Seq<char>,
    pub phase: Seq<char>,
    pub error: Option<Seq<char>>,
    pub changed: Option<usize>,
    pub failed: Option<usize>,
}

impl View for MaintenanceProgress {
    type V = MaintenanceModel;

    open spec fn view(&self) -> MaintenanceModel {
        MaintenanceModel {
            job_id: self.job_id@,
            kind: self.kind@,
            done: self.done,
            total: self.total,
            current: self.current@,
            phase: self.phase@,
            error: text_of(self.error),
            changed: self.changed,
            failed: self.failed,
        }
    }
}

/// The first three texts.
pub open spec fn first_three(parts: Seq<Seq<char>>) -> Seq<Seq<char>> {
    if parts.len() > 3 {
        parts.take(3)
    } else {
        parts
    }
}

fn preview_of(parts: &Vec<String>) -> (r: String)
    ensures
        r@ == joined_by(first_three(texts(parts@)), "；"@),
{
    let ghost all = texts(parts@);
    let mut head: Vec<String> = Vec::new();
    let mut i: usize = 0;
    while i < parts.len() && i < 3
        invariant
            i <= parts.len(),
            i <= 3,
            all == texts(parts@),
            texts(head@) == all.take(i as int),
        decreases 3 - i,
    {
        let ghost before = texts(head@);
        head.push(parts[i].clone());
        assert(texts(head@) =~= before.push(parts[i as int]@));
        assert(all.take(i + 1) =~= all.take(i as int).push(all[i as int]));
        i += 1;
    }
    assert(all.take(i as int) =~= first_three(all));
    join(&head, "；")
}

/// What the upgrade of folder metadata did.
pub struct UpgradeReport {
    pub changed: usize,
    pub failed: usize,
    /// The folders that failed, with the reasons.
    pub errors: Vec<(String, String)>,
}

pub open spec fn upgrade_errors(errors: Seq<(String, String)>) -> Seq<Seq<char>> {
    errors.map_values(|e: (String, String)| e.0@ + "："@ + e.1@)
}

pub open spec fn upgrade_message(report: UpgradeReport) -> Option<Seq<char>> {
    if report.failed == 0 {
        None
    } else {
        Some(
            decimal(report.failed as nat) + " 个文件夹升级失败。"@ + joined_by(
                first_three(upgrade_errors(report.errors@)),
                "；"@,
            ),
        )
    }
}

/// A line of progress of the upgrade of folder metadata.
pub fn upgrade_step(job_id: &str, done: usize, total: usize, current: &str) -> (r:
    MaintenanceProgress)
    ensures
        r@ == (MaintenanceModel {
            job_id: job_id@,
            kind: "folder_metadata"@,
            done,
            total,
            current: current@,
            phase: "migrate"@,
            error: None,
            changed: None,
            failed: None,
        }),
{
    MaintenanceProgress {
        job_id: job_id.to_owned(),
        kind: "folder_metadata",
        done,
        total,
        current: current.to_owned(),
        phase: "migrate",
        error: None,
        changed: None,
        failed: None,
    }
}

/// The last line of the upgrade of folder metadata. Without any folder there is no report.
pub fn upgrade_end(job_id: &str, done: usize, total: usize, report: Option<UpgradeReport>) -> (r:
    MaintenanceProgress)
    ensures
        r@ == (MaintenanceModel {
            job_id: job_id@,
            kind: "folder_metadata"@,
            done: if report is Some {
                done
            } else {
                0
            },
            total: if report is Some {
                total
            } else {
                0
            },
            current: ""@,
            phase: "done"@,
            error: match report {
                Some(report) => upgrade_message(report),
                None => None,
            },
            changed: match report {
                Some(report) => Some(report.changed),
                None => None,
            },
            failed: match report {
                Some(report) => Some(report.failed),
                None => None,
            },
        }),
{
    match report {
        None => MaintenanceProgress {
            job_id: job_id.to_owned(),
            kind: "folder_metadata",
            done: 0,
            total: 0,
            current: "".to_owned(),
            phase: "done",
            error: None,
            changed: None,
            failed: None,
        },
        Some(report) => {
            let error: Option<String> = if report.failed == 0 {
                None
            } else {
                let ghost all = upgrade_errors(report.errors@);
                let mut lines: Vec<String> = Vec::new();
                let mut i: usize = 0;
                while i < report.errors.len()
                    invariant
                        i <= report.errors.len(),
                        all == upgrade_errors(report.errors@),
                        texts(lines@) == all.take(i as int),
                    decreases report.errors.len() - i,
                {
                    let ghost before = texts(lines@);
                    let mut line = report.errors[i].0.clone();
                    line.append("：");
                    line.append(report.errors[i].1.as_str());
                    assert(line@ =~= all[i as int]);
                    lines.push(line);
                    assert(texts(lines@) =~= before.push(line@));
                    assert(all.take(i + 1) =~= all.take(i as int).push(all[i as int]));
                    i += 1;
                }
                assert(all.take(i as int) =~= all);
                let mut message = String::new();
                append_decimal(&mut message, report.failed as u64);
                message.append(" 个文件夹升级失败。");
                message.append(preview_of(&lines).as_str());
                assert(message@ =~= decimal(report.failed as nat) + " 个文件夹升级失败。"@
                    + joined_by(first_three(all), "；"@));
                Some(message)
            };
            MaintenanceProgress {
                job_id: job_id.to_owned(),
                kind: "folder_metadata",
                done,
                total,
                current: "".to_owned(),
                phase: "done",
                error,
                changed: Some(report.changed),
                failed: Some(report.failed),
            }
        },
    }
}

/// What became of one track whose waveform was to be made.
pub enum BackfillOutcome {
    /// The file is not there.
    Missing,
    Prepared,
    Failed(String),
}

/// The preparation of missing waveforms, one track after another. A track that fails does not stop
/// the others.
pub struct WaveformBackfill {
    pub job_id: String,
    /// The tracks and their paths.
    pub candidates: Vec<(i64, String)>,
    pub next: usize,
    pub errors: Vec<String>,
}

/// The name under which a path is shown.
pub open spec fn shown_name(path: Seq<char>) -> Seq<char> {
    if file_name_of(path).len() > 0 {
        file_name_of(path)
    } else {
        path
    }
}

fn shown_name_of(path: &str) -> (r: String)
    ensures
        r@ == shown_name(path@),
{
    let name = file_name(path);
    if name.as_str().is_empty() {
        path.to_owned()
    } else {
        name
    }
}

pub open spec fn backfill_error(name: Seq<char>, outcome: BackfillOutcome) -> Option<Seq<char>> {
    match outcome {
        BackfillOutcome::Missing => Some(name + "："@ + "文件不存在"@),
        BackfillOutcome::Prepared => None,
        BackfillOutcome::Failed(reason) => Some(name + "："@ + reason@),
    }
}

pub open spec fn backfill_line(
    job_id: Seq<char>,
    done: usize,
    total: usize,
    current: Seq<char>,
    phase: Seq<char>,
) -> MaintenanceModel {
    MaintenanceModel {
        job_id,
        kind: "waveform"@,
        done,
        total,
        current,
        phase,
        error: None,
        changed: None,
        failed: None,
    }
}

pub open spec fn backfill_message(errors: Seq<Seq<char>>) -> Option<Seq<char>> {
    if errors.len() == 0 {
        None
    } else {
        Some(
            decimal(errors.len()) + " 首波形准备失败。"@ + joined_by(first_three(errors), "；"@),
        )
    }
}

/// The only line of a job whose list of tracks could not be read.
pub fn backfill_unavailable(job_id: &str, reason: &str) -> (r: MaintenanceProgress)
    ensures
        r@ == (MaintenanceModel {
            error: Some("读取波形待办失败："@ + reason@),
            ..backfill_line(job_id@, 0, 0, ""@, "done"@)
        }),
{
    let mut error = "读取波形待办失败：".to_owned();
    error.append(reason);
    MaintenanceProgress {
        job_id: job_id.to_owned(),
        kind: "waveform",
        done: 0,
        total: 0,
        current: "".to_owned(),
        phase: "done",
        error: Some(error),
        changed: None,
        failed: None,
    }
}

impl WaveformBackfill {
    pub open spec fn well_formed(self) -> bool {
        self.next <= self.candidates@.len()
    }

    fn line(&self, done: usize, current: String, phase: &'static str) -> (r: MaintenanceProgress)
        ensures
            r@ == backfill_line(
                self.job_id@,
                done,
                self.candidates@.len() as usize,
                current@,
                phase@,
            ),
    {
        MaintenanceProgress {
            job_id: self.job_id.clone(),
            kind: "waveform",
            done,
            total: self.candidates.len(),
            current,
            phase,
            error: None,
            changed: None,
            failed: None,
        }
    }

    /// Begins the work, with its first line.
    pub fn begin(job_id: String, candidates: Vec<(i64, String)>) -> (r: (Self, MaintenanceProgress))
        ensures
            r.0.well_formed(),
            r.0.job_id@ == job_id@,
            r.0.candidates@ == candidates@,
            r.0.next == 0,
            texts(r.0.errors@) == Seq::<Seq<char>>::empty(),
            r.1@ == backfill_line(job_id@, 0, candidates@.len() as usize, ""@, "prepare"@),
    {
        let work = WaveformBackfill { job_id, candidates, next: 0, errors: Vec::new() };
        assert(texts(work.errors@) =~= Seq::<Seq<char>>::empty());
        let line = work.line(0, "".to_owned(), "prepare");
        (work, line)
    }

    /// The track to prepare now; none at the end.
    pub fn pending(&self) -> (r: Option<(i64, &str)>)
        requires
            self.well_formed(),
        ensures
            match r {
                Some(item) => self.next < self.candidates@.len() && item.0
                    == self.candidates@[self.next as int].0 && item.1@
                    == self.candidates@[self.next as int].1@,
                None => self.next == self.candidates@.len(),
            },
    {
        if self.next < self.candidates.len() {
            Some((self.candidates[self.next].0, self.candidates[self.next].1.as_str()))
        } else {
            None
        }
    }

    /// Takes what became of the track and goes on to the next one.
    pub fn record(&mut self, outcome: BackfillOutcome) -> (r: MaintenanceProgress)
        requires
            old(self).well_formed(),
            old(self).next < old(self).candidates@.len(),
        ensures
            final(self).well_formed(),
            final(self).job_id == old(self).job_id,
            final(self).candidates == old(self).candidates,
            final(self).next == old(self).next + 1,
            ({
                let name = shown_name(old(self).candidates@[old(self).next as int].1@);
                &&& texts(final(self).errors@) == match backfill_error(name, outcome) {
                    Some(error) => texts(old(self).errors@).push(error),
                    None => texts(old(self).errors@),
                }
                &&& r@ == backfill_line(
                    old(self).job_id@,
                    final(self).next,
                    old(self).candidates@.len() as usize,
                    name,
                    "prepare"@,
                )
            }),
    {
        let name = shown_name_of(self.candidates[self.next].1.as_str());
        let total: usize = self.candidates.len();
        let ghost before = texts(self.errors@);
        match outcome {
            BackfillOutcome::Missing => {
                let mut error = name.clone();
                error.append("：");
                error.append("文件不存在");
                self.errors.push(error);
                assert(texts(self.errors@) =~= before.push(error@));
            },
            BackfillOutcome::Prepared => {},
            BackfillOutcome::Failed(reason) => {
                let mut error = name.clone();
                error.append("：");
                error.append(reason.as_str());
                self.errors.push(error);
                assert(texts(self.errors@) =~= before.push(error@));
            },
        }
        assert(self.next < total);
        self.next = self.next + 1;
        self.line(self.next, name, "prepare")
    }

    /// The last line.
    pub fn end(&self) -> (r: MaintenanceProgress)
        ensures
            r@ == (MaintenanceModel {
                error: backfill_message(texts(self.errors@)),
                failed: Some(self.errors@.len() as usize),
                ..backfill_line(
                    self.job_id@,
                    self.candidates@.len() as usize,
                    self.candidates@.len() as usize,
                    ""@,
                    "done"@,
                )
            }),
    {
        let error: Option<String> = if self.errors.len() == 0 {
            None
        } else {
            let mut message = String::new();
            append_decimal(&mut message, self.errors.len() as u64);
            message.append(" 首波形准备失败。");
            message.append(preview_of(&self.errors).as_str());
            assert(message@ =~= decimal(texts(self.errors@).len()) + " 首波形准备失败。"@
                + joined_by(first_three(texts(self.errors@)), "；"@));
            Some(message)
        };
        let line = self.line(self.candidates.len(), "".to_owned(), "done");
        MaintenanceProgress { error, failed: Some(self.errors.len()), ..line }
    }
}

} // verus!
