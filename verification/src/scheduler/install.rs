//! How the session report is put into place: the steps one by one, what a failed
//! step leads to, and that the report that was there before is never lost.

use vstd::prelude::*;

verus! {

/// What to do next with the files of a report.
#[derive(Debug, Clone, Copy, PartialEq, Eq, Structural)]
pub enum InstallStep {
    /// Write the text after the tests.
    WriteFooter,
    /// Flush the temporary report to the disk.
    SyncReport,
    /// Look whether there is a report already.
    InspectDestination,
    /// Copy the previous report to the backup.
    CopyBackup,
    /// Flush the backup to the disk.
    SyncBackup,
    /// Rename the temporary report to its destination.
    Install,
    /// Flush the directory to the disk.
    SyncDirectory,
    /// Remove the backup of the previous report.
    RemoveBackup,
    /// Take the new report away again.
    RemoveInstalled,
    /// Rename the backup to the destination.
    RestoreBackup,
    /// Flush the restored report to the disk.
    SyncRestored,
    /// Flush the directory of the restored report to the disk.
    SyncRollback,
    /// Remove the temporary report.
    RemoveTemporary,
    /// Remove the backup that is no longer needed.
    DropBackup,
    /// Nothing is left to do.
    Over,
}

/// What came of a step. Errors come as their text.
#[derive(Debug, Clone, PartialEq, Eq)]
pub enum StepResult {
    Succeeded,
    /// The file of the step does not exist.
    NotFound(String),
    /// What is at the destination is no regular file.
    NotAFile,
    Failed(String),
}

/// What came of a step, as a mathematical value.
pub enum StepView {
    Succeeded,
    NotFound(Seq<char>),
    NotAFile,
    Failed(Seq<char>),
}

impl View for StepResult {
    type V = StepView;

    open spec fn view(&self) -> StepView {
        match self {
            StepResult::Succeeded => StepView::Succeeded,
            StepResult::NotFound(error) => StepView::NotFound(error@),
            StepResult::NotAFile => StepView::NotAFile,
            StepResult::Failed(error) => StepView::Failed(error@),
        }
    }
}

/// The error of a step that needs its file.
pub open spec fn hard_error(result: StepView) -> Option<Seq<char>> {
    match result {
        StepView::Succeeded => None,
        StepView::NotFound(error) => Some(error),
        StepView::NotAFile => Some("not a regular file"@),
        StepView::Failed(error) => Some(error),
    }
}

/// The error of a step that only wants its file gone.
pub open spec fn removal_error(result: StepView) -> Option<Seq<char>> {
    match result {
        StepView::NotFound(_) => None,
        _ => hard_error(result),
    }
}

/// Where the installation of a report stands.
#[derive(Debug)]
pub struct Installation {
    /// The names of the files, as they are shown.
    pub destination: String,
    pub temporary: String,
    pub backup: String,
    pub step: InstallStep,
    /// Whether there was a report before.
    pub previous_present: bool,
    /// Whether the new report stands at its destination.
    pub installed: bool,
    /// Whether the previous report stands in the backup.
    pub backup_created: bool,
    /// Why the report could not be put into place.
    pub error: Option<String>,
    /// Why the previous report could not be put back.
    pub rollback_error: Option<String>,
    /// Which files could not be removed.
    pub cleanup_error: Option<String>,
}

/// Where the installation of a report stands, as a mathematical value.
pub struct InstallView {
    pub destination: Seq<char>,
    pub temporary: Seq<char>,
    pub backup: Seq<char>,
    pub step: InstallStep,
    pub previous_present: bool,
    pub installed: bool,
    pub backup_created: bool,
    pub error: Option<Seq<char>>,
    pub rollback_error: Option<Seq<char>>,
    pub cleanup_error: Option<Seq<char>>,
}

/// The view of a text that may be absent.
pub open spec fn seen(s: Option<String>) -> Option<Seq<char>> {
    match s {
        Some(s) => Some(s@),
        None => None,
    }
}

impl View for Installation {
    type V = InstallView;

    open spec fn view(&self) -> InstallView {
        InstallView {
            destination: self.destination@,
            temporary: self.temporary@,
            backup: self.backup@,
            step: self.step,
            previous_present: self.previous_present,
            installed: self.installed,
            backup_created: self.backup_created,
            error: seen(self.error),
            rollback_error: seen(self.rollback_error),
            cleanup_error: seen(self.cleanup_error),
        }
    }
}

/// A fresh installation.
pub open spec fn fresh(
    destination: Seq<char>,
    temporary: Seq<char>,
    backup: Seq<char>,
    step: InstallStep,
) -> InstallView {
    InstallView {
        destination,
        temporary,
        backup,
        step,
        previous_present: false,
        installed: false,
        backup_created: false,
        error: None,
        rollback_error: None,
        cleanup_error: None,
    }
}

/// The step `next` comes after the current one.
pub open spec fn on(s: InstallView, next: InstallStep) -> InstallView {
    InstallView { step: next, ..s }
}

/// The report cannot be put into place: a new report that stands there already is
/// taken away again.
pub open spec fn given_up(s: InstallView, error: Seq<char>) -> InstallView {
    let s = InstallView { error: Some(error), ..s };
    if !s.installed {
        on(s, InstallStep::RemoveTemporary)
    } else if s.previous_present && !s.backup_created {
        rollback_failed(s, "previous report backup is missing"@)
    } else {
        on(s, InstallStep::RemoveInstalled)
    }
}

/// The previous report cannot be put back.
pub open spec fn rollback_failed(s: InstallView, error: Seq<char>) -> InstallView {
    InstallView { rollback_error: Some(error), step: InstallStep::RemoveTemporary, ..s }
}

/// A file could not be removed.
pub open spec fn with_leftover(s: InstallView, file: Seq<char>, error: Seq<char>) -> InstallView {
    let message = "failed to remove temporary report "@ + file + ": "@ + error;
    InstallView {
        cleanup_error: match s.cleanup_error {
            Some(before) => Some(before + "; "@ + message),
            None => Some(message),
        },
        ..s
    }
}

/// What the result of the current step leads to.
pub open spec fn advanced(s: InstallView, result: StepView) -> InstallView {
    match s.step {
        InstallStep::WriteFooter => match hard_error(result) {
            Some(error) => given_up(s, "write report footer: "@ + error),
            None => on(s, InstallStep::SyncReport),
        },
        InstallStep::SyncReport => match hard_error(result) {
            Some(error) => given_up(s, "sync report: "@ + error),
            None => on(s, InstallStep::InspectDestination),
        },
        InstallStep::InspectDestination => match result {
            StepView::Succeeded => on(s, InstallStep::CopyBackup),
            StepView::NotFound(_) => on(s, InstallStep::Install),
            StepView::NotAFile => given_up(
                s,
                "backup report destination "@ + s.destination + " is not a regular file"@,
            ),
            StepView::Failed(error) => given_up(
                s,
                "inspect existing report "@ + s.destination + ": "@ + error,
            ),
        },
        InstallStep::CopyBackup => match hard_error(result) {
            Some(error) => given_up(s, "backup existing report "@ + s.destination + ": "@ + error),
            None => on(s, InstallStep::SyncBackup),
        },
        InstallStep::SyncBackup => match hard_error(result) {
            Some(error) => given_up(s, "sync report backup "@ + s.backup + ": "@ + error),
            None => InstallView {
                previous_present: true,
                backup_created: true,
                step: InstallStep::Install,
                ..s
            },
        },
        InstallStep::Install => match hard_error(result) {
            Some(error) => given_up(s, "rename report into place: "@ + error),
            None => InstallView { installed: true, step: InstallStep::SyncDirectory, ..s },
        },
        InstallStep::SyncDirectory => match hard_error(result) {
            Some(error) => given_up(s, "sync report directory: "@ + error),
            None => on(
                s,
                if s.backup_created {
                    InstallStep::RemoveBackup
                } else {
                    InstallStep::Over
                },
            ),
        },
        InstallStep::RemoveBackup => match hard_error(result) {
            Some(error) => given_up(s, "remove report backup "@ + s.backup + ": "@ + error),
            None => InstallView { backup_created: false, step: InstallStep::Over, ..s },
        },
        InstallStep::RemoveInstalled => match removal_error(result) {
            Some(error) => rollback_failed(
                s,
                if s.previous_present {
                    "remove failed report before rollback: "@ + error
                } else {
                    "remove failed report: "@ + error
                },
            ),
            None => on(
                s,
                if s.previous_present {
                    InstallStep::RestoreBackup
                } else {
                    InstallStep::SyncRollback
                },
            ),
        },
        InstallStep::RestoreBackup => match hard_error(result) {
            Some(error) => rollback_failed(s, "restore previous report: "@ + error),
            None => InstallView { backup_created: false, step: InstallStep::SyncRestored, ..s },
        },
        InstallStep::SyncRestored => match hard_error(result) {
            Some(error) => rollback_failed(s, "sync restored report: "@ + error),
            None => on(s, InstallStep::SyncRollback),
        },
        InstallStep::SyncRollback => match hard_error(result) {
            Some(error) => rollback_failed(s, "sync report directory: "@ + error),
            None => InstallView { installed: false, step: InstallStep::RemoveTemporary, ..s },
        },
        InstallStep::RemoveTemporary => {
            let cleaned = match removal_error(result) {
                Some(error) => with_leftover(s, s.temporary, error),
                None => s,
            };
            on(
                cleaned,
                if s.rollback_error is Some {
                    InstallStep::Over
                } else {
                    InstallStep::DropBackup
                },
            )
        },
        InstallStep::DropBackup => {
            let cleaned = match removal_error(result) {
                Some(error) => with_leftover(s, s.backup, error),
                None => s,
            };
            on(cleaned, InstallStep::Over)
        },
        InstallStep::Over => s,
    }
}

/// Where the previous report can be found when it could not be put back.
pub open spec fn recovery_path(s: InstallView) -> Seq<char> {
    if s.backup_created {
        s.backup
    } else {
        s.destination
    }
}

/// What is said of a report that was not put into place.
pub open spec fn failure_detail(s: InstallView, error: Seq<char>) -> Seq<char> {
    error + (match s.rollback_error {
        Some(rollback) => "; rollback failed: "@ + rollback + "; recovery retained at "@
            + recovery_path(s),
        None => Seq::empty(),
    }) + (match s.cleanup_error {
        Some(cleanup) => "; cleanup failed: "@ + cleanup,
        None => Seq::empty(),
    })
}

fn hard_error_of(result: StepResult) -> (r: Option<String>)
    ensures
        seen(r) == hard_error(result@),
{
    match result {
        StepResult::Succeeded => None,
        StepResult::NotFound(error) => Some(error),
        StepResult::NotAFile => Some("not a regular file".to_owned()),
        StepResult::Failed(error) => Some(error),
    }
}

fn removal_error_of(result: StepResult) -> (r: Option<String>)
    ensures
        seen(r) == removal_error(result@),
{
    match result {
        StepResult::NotFound(_) => None,
        other => hard_error_of(other),
    }
}

fn led(lead: &str, error: &str) -> (r: String)
    ensures
        r@ == lead@ + error@,
{
    let mut out: String = lead.to_owned();
    out.push_str(error);
    out
}

fn led_with(lead: &str, file: &str, error: &str) -> (r: String)
    ensures
        r@ == lead@ + file@ + ": "@ + error@,
{
    let mut out: String = lead.to_owned();
    out.push_str(file);
    out.push_str(": ");
    out.push_str(error);
    out
}

impl Installation {
    /// The installation of a report whose tests are all written.
    pub fn begin(destination: String, temporary: String, backup: String) -> (r: Self)
        ensures
            r@ == fresh(destination@, temporary@, backup@, InstallStep::WriteFooter),
    {
        Installation::at(destination, temporary, backup, InstallStep::WriteFooter)
    }

    /// The end of a report that is given up before all tests are written: only its
    /// files are removed.
    pub fn discard(destination: String, temporary: String, backup: String) -> (r: Self)
        ensures
            r@ == fresh(destination@, temporary@, backup@, InstallStep::RemoveTemporary),
    {
        Installation::at(destination, temporary, backup, InstallStep::RemoveTemporary)
    }

    fn at(destination: String, temporary: String, backup: String, step: InstallStep) -> (r: Self)
        ensures
            r@ == fresh(destination@, temporary@, backup@, step),
    {
        Installation {
            destination,
            temporary,
            backup,
            step,
            previous_present: false,
            installed: false,
            backup_created: false,
            error: None,
            rollback_error: None,
            cleanup_error: None,
        }
    }

    fn give_up(&mut self, error: String)
        ensures
            final(self)@ == given_up(old(self)@, error@),
    {
        self.error = Some(error);
        if !self.installed {
            self.step = InstallStep::RemoveTemporary;
        } else if self.previous_present && !self.backup_created {
            self.fail_rollback("previous report backup is missing".to_owned());
        } else {
            self.step = InstallStep::RemoveInstalled;
        }
    }

    fn fail_rollback(&mut self, error: String)
        ensures
            final(self)@ == rollback_failed(old(self)@, error@),
    {
        self.rollback_error = Some(error);
        self.step = InstallStep::RemoveTemporary;
    }

    fn note_leftover(&mut self, temporary: bool, error: &str)
        ensures
            final(self)@ == with_leftover(
                old(self)@,
                if temporary {
                    old(self)@.temporary
                } else {
                    old(self)@.backup
                },
                error@,
            ),
    {
        let message: String = if temporary {
            led_with("failed to remove temporary report ", self.temporary.as_str(), error)
        } else {
            led_with("failed to remove temporary report ", self.backup.as_str(), error)
        };
        let all: String = match &self.cleanup_error {
            Some(before) => {
                let mut all: String = before.clone();
                all.push_str("; ");
                all.push_str(message.as_str());
                all
            },
            None => message,
        };
        self.cleanup_error = Some(all);
    }

    fn advance_forward(&mut self, result: StepResult)
        requires
            old(self).step is WriteFooter || old(self).step is SyncReport || old(self).step
                is InspectDestination || old(self).step is CopyBackup || old(self).step
                is SyncBackup,
        ensures
            final(self)@ == advanced(old(self)@, result@),
    {
        match self.step {
            InstallStep::WriteFooter => match hard_error_of(result) {
                Some(error) => self.give_up(led("write report footer: ", error.as_str())),
                None => {
                    self.step = InstallStep::SyncReport;
                },
            },
            InstallStep::SyncReport => match hard_error_of(result) {
                Some(error) => self.give_up(led("sync report: ", error.as_str())),
                None => {
                    self.step = InstallStep::InspectDestination;
                },
            },
            InstallStep::InspectDestination => match result {
                StepResult::Succeeded => {
                    self.step = InstallStep::CopyBackup;
                },
                StepResult::NotFound(_) => {
                    self.step = InstallStep::Install;
                },
                StepResult::NotAFile => {
                    let mut message: String = led(
                        "backup report destination ",
                        self.destination.as_str(),
                    );
                    message.push_str(" is not a regular file");
                    self.give_up(message);
                },
                StepResult::Failed(error) => {
                    let message: String = led_with(
                        "inspect existing report ",
                        self.destination.as_str(),
                        error.as_str(),
                    );
                    self.give_up(message);
                },
            },
            InstallStep::CopyBackup => match hard_error_of(result) {
                Some(error) => {
                    let message: String = led_with(
                        "backup existing report ",
                        self.destination.as_str(),
                        error.as_str(),
                    );
                    self.give_up(message);
                },
                None => {
                    self.step = InstallStep::SyncBackup;
                },
            },
            _ => match hard_error_of(result) {
                Some(error) => {
                    let message: String = led_with(
                        "sync report backup ",
                        self.backup.as_str(),
                        error.as_str(),
                    );
                    self.give_up(message);
                },
                None => {
                    self.previous_present = true;
                    self.backup_created = true;
                    self.step = InstallStep::Install;
                },
            },
        }
    }

    fn advance_install(&mut self, result: StepResult)
        requires
            old(self).step is Install || old(self).step is SyncDirectory || old(self).step
                is RemoveBackup,
        ensures
            final(self)@ == advanced(old(self)@, result@),
    {
        match self.step {
            InstallStep::Install => match hard_error_of(result) {
                Some(error) => self.give_up(led("rename report into place: ", error.as_str())),
                None => {
                    self.installed = true;
                    self.step = InstallStep::SyncDirectory;
                },
            },
            InstallStep::SyncDirectory => match hard_error_of(result) {
                Some(error) => self.give_up(led("sync report directory: ", error.as_str())),
                None => {
                    self.step = if self.backup_created {
                        InstallStep::RemoveBackup
                    } else {
                        InstallStep::Over
                    };
                },
            },
            _ => match hard_error_of(result) {
                Some(error) => {
                    let message: String = led_with(
                        "remove report backup ",
                        self.backup.as_str(),
                        error.as_str(),
                    );
                    self.give_up(message);
                },
                None => {
                    self.backup_created = false;
                    self.step = InstallStep::Over;
                },
            },
        }
    }

    fn advance_rollback(&mut self, result: StepResult)
        requires
            old(self).step is RemoveInstalled || old(self).step is RestoreBackup || old(self).step
                is SyncRestored || old(self).step is SyncRollback,
        ensures
            final(self)@ == advanced(old(self)@, result@),
    {
        match self.step {
            InstallStep::RemoveInstalled => match removal_error_of(result) {
                Some(error) => {
                    let message: String = if self.previous_present {
                        led("remove failed report before rollback: ", error.as_str())
                    } else {
                        led("remove failed report: ", error.as_str())
                    };
                    self.fail_rollback(message);
                },
                None => {
                    self.step = if self.previous_present {
                        InstallStep::RestoreBackup
                    } else {
                        InstallStep::SyncRollback
                    };
                },
            },
            InstallStep::RestoreBackup => match hard_error_of(result) {
                Some(error) => self.fail_rollback(
                    led("restore previous report: ", error.as_str()),
                ),
                None => {
                    self.backup_created = false;
                    self.step = InstallStep::SyncRestored;
                },
            },
            InstallStep::SyncRestored => match hard_error_of(result) {
                Some(error) => self.fail_rollback(led("sync restored report: ", error.as_str())),
                None => {
                    self.step = InstallStep::SyncRollback;
                },
            },
            _ => match hard_error_of(result) {
                Some(error) => self.fail_rollback(led("sync report directory: ", error.as_str())),
                None => {
                    self.installed = false;
                    self.step = InstallStep::RemoveTemporary;
                },
            },
        }
    }

    /// Takes in the result of the current step.
    pub fn advance(&mut self, result: StepResult)
        ensures
            final(self)@ == advanced(old(self)@, result@),
    {
        match self.step {
            InstallStep::WriteFooter
            | InstallStep::SyncReport
            | InstallStep::InspectDestination
            | InstallStep::CopyBackup
            | InstallStep::SyncBackup => self.advance_forward(result),
            InstallStep::Install | InstallStep::SyncDirectory | InstallStep::RemoveBackup => {
                self.advance_install(result)
            },
            InstallStep::RemoveInstalled
            | InstallStep::RestoreBackup
            | InstallStep::SyncRestored
            | InstallStep::SyncRollback => self.advance_rollback(result),
            InstallStep::RemoveTemporary => {
                if let Some(error) = removal_error_of(result) {
                    self.note_leftover(true, error.as_str());
                }
                self.step = if self.rollback_error.is_some() {
                    InstallStep::Over
                } else {
                    InstallStep::DropBackup
                };
            },
            InstallStep::DropBackup => {
                if let Some(error) = removal_error_of(result) {
                    self.note_leftover(false, error.as_str());
                }
                self.step = InstallStep::Over;
            },
            InstallStep::Over => {},
        }
    }

    /// What is said of a report that was not put into place; `None` where it was.
    pub fn failure(&self) -> (r: Option<String>)
        ensures
            r is Some <==> self.error is Some,
            r matches Some(detail) ==> detail@ == failure_detail(self@, self.error->0@),
    {
        match &self.error {
            Some(error) => {
                let mut out: String = error.clone();
                let rollback: String = match &self.rollback_error {
                    Some(rollback) => {
                        let mut part: String = led("; rollback failed: ", rollback.as_str());
                        part.push_str("; recovery retained at ");
                        if self.backup_created {
                            part.push_str(self.backup.as_str());
                        } else {
                            part.push_str(self.destination.as_str());
                        }
                        part
                    },
                    None => String::new(),
                };
                out.push_str(rollback.as_str());
                let cleanup: String = match &self.cleanup_error {
                    Some(cleanup) => led("; cleanup failed: ", cleanup.as_str()),
                    None => String::new(),
                };
                out.push_str(cleanup.as_str());
                Some(out)
            },
            None => None,
        }
    }
}

// ---------------------------------------------------------------------------
// What happens to the files.

/// The files of a report; `None` where there is none.
#[verifier::ext_equal]
pub struct Disk {
    pub destination: Option<Seq<u8>>,
    pub temporary: Option<Seq<u8>>,
    pub backup: Option<Seq<u8>>,
}

/// What a step that succeeds does to the files. `report` is the complete new
/// report.
pub open spec fn effect(step: InstallStep, disk: Disk, report: Seq<u8>) -> Disk {
    match step {
        InstallStep::WriteFooter => Disk { temporary: Some(report), ..disk },
        InstallStep::CopyBackup => Disk { backup: disk.destination, ..disk },
        InstallStep::Install => Disk { destination: disk.temporary, temporary: None, ..disk },
        InstallStep::RemoveBackup => Disk { backup: None, ..disk },
        InstallStep::RemoveInstalled => Disk { destination: None, ..disk },
        InstallStep::RestoreBackup => Disk { destination: disk.backup, backup: None, ..disk },
        InstallStep::RemoveTemporary => Disk { temporary: None, ..disk },
        InstallStep::DropBackup => Disk { backup: None, ..disk },
        _ => disk,
    }
}

/// Whether a result can come of a step, and leave these files. A step that fails
/// changes nothing, except that a report or a backup may be written in part.
pub open spec fn may_happen(
    step: InstallStep,
    result: StepView,
    before: Disk,
    after: Disk,
    report: Seq<u8>,
) -> bool {
    match result {
        StepView::Succeeded => {
            &&& after == effect(step, before, report)
            &&& step is InspectDestination ==> before.destination is Some
        },
        StepView::NotFound(_) => {
            &&& after == before
            &&& step is InspectDestination || step is RemoveInstalled ==> before.destination is None
        },
        _ => match step {
            InstallStep::WriteFooter => after.destination == before.destination && after.backup
                == before.backup,
            InstallStep::CopyBackup => after.destination == before.destination && after.temporary
                == before.temporary,
            _ => after == before,
        },
    }
}

/// Where the previous report is at each point of an installation. `previous` is
/// what stood at the destination at first.
pub open spec fn keeps_previous(
    s: InstallView,
    disk: Disk,
    previous: Option<Seq<u8>>,
    report: Seq<u8>,
) -> bool {
    let backed_up = s.backup_created && disk.backup == previous;
    match s.step {
        InstallStep::WriteFooter => {
            &&& disk.destination == previous
            &&& !s.installed && !s.previous_present && !s.backup_created
            &&& s.error is None && s.rollback_error is None
        },
        InstallStep::SyncReport | InstallStep::InspectDestination => {
            &&& disk.destination == previous
            &&& disk.temporary == Some(report)
            &&& !s.installed && !s.previous_present && !s.backup_created
            &&& s.error is None && s.rollback_error is None
        },
        InstallStep::CopyBackup => {
            &&& disk.destination == previous && previous is Some
            &&& disk.temporary == Some(report)
            &&& !s.installed && !s.previous_present && !s.backup_created
            &&& s.error is None && s.rollback_error is None
        },
        InstallStep::SyncBackup => {
            &&& disk.destination == previous && previous is Some
            &&& disk.backup == previous
            &&& disk.temporary == Some(report)
            &&& !s.installed && !s.previous_present && !s.backup_created
            &&& s.error is None && s.rollback_error is None
        },
        InstallStep::Install => {
            &&& disk.destination == previous
            &&& disk.temporary == Some(report)
            &&& !s.installed
            &&& s.previous_present == (previous is Some)
            &&& previous is Some ==> backed_up
            &&& previous is None ==> !s.backup_created
            &&& s.error is None && s.rollback_error is None
        },
        InstallStep::SyncDirectory | InstallStep::RemoveBackup => {
            &&& disk.destination == Some(report)
            &&& s.installed
            &&& s.previous_present == (previous is Some)
            &&& previous is Some ==> backed_up
            &&& previous is None ==> !s.backup_created
            &&& s.error is None && s.rollback_error is None
        },
        InstallStep::RemoveInstalled => {
            &&& s.installed
            &&& s.previous_present == (previous is Some)
            &&& previous is Some ==> backed_up
            &&& previous is None ==> !s.backup_created
            &&& s.error is Some && s.rollback_error is None
        },
        InstallStep::RestoreBackup => {
            &&& previous is Some && backed_up && s.previous_present && s.installed
            &&& s.error is Some && s.rollback_error is None
        },
        InstallStep::SyncRestored | InstallStep::SyncRollback => {
            &&& disk.destination == previous && !s.backup_created
            &&& s.error is Some && s.rollback_error is None
        },
        InstallStep::RemoveTemporary | InstallStep::DropBackup => {
            &&& s.error is Some
            &&& s.rollback_error is None ==> disk.destination == previous
            &&& s.rollback_error is Some ==> (s.step is RemoveTemporary && (previous is Some ==> (
            if s.backup_created {
                disk.backup == previous
            } else {
                disk.destination == previous
            })))
        },
        InstallStep::Over => {
            &&& s.error is None ==> disk.destination == Some(report)
            &&& s.error is Some && s.rollback_error is None ==> disk.destination == previous
            &&& s.error is Some && s.rollback_error is Some && previous is Some ==> (
            if s.backup_created {
                disk.backup == previous
            } else {
                disk.destination == previous
            })
        },
    }
}

/// An installation starts with the previous report in its place.
pub proof fn law_installations_start_safe(
    destination: Seq<char>,
    temporary: Seq<char>,
    backup: Seq<char>,
    disk: Disk,
    report: Seq<u8>,
)
    ensures
        keeps_previous(
            fresh(destination, temporary, backup, InstallStep::WriteFooter),
            disk,
            disk.destination,
            report,
        ),
{
}

/// The previous report is never lost, whichever steps fail. When the installation
/// is over, the new report stands at the destination; or the previous one does, and
/// the failure is told; or the failure is told with the place where the previous
/// one is kept.
pub proof fn law_previous_report_is_never_lost(
    s: InstallView,
    result: StepView,
    before: Disk,
    after: Disk,
    previous: Option<Seq<u8>>,
    report: Seq<u8>,
)
    requires
        keeps_previous(s, before, previous, report),
        may_happen(s.step, result, before, after, report),
    ensures
        keeps_previous(advanced(s, result), after, previous, report),
{
}

/// How many steps can follow at most.
pub open spec fn steps_left(step: InstallStep) -> nat {
    match step {
        InstallStep::WriteFooter => 14,
        InstallStep::SyncReport => 13,
        InstallStep::InspectDestination => 12,
        InstallStep::CopyBackup => 11,
        InstallStep::SyncBackup => 10,
        InstallStep::Install => 9,
        InstallStep::SyncDirectory => 8,
        InstallStep::RemoveBackup => 7,
        InstallStep::RemoveInstalled => 6,
        InstallStep::RestoreBackup => 5,
        InstallStep::SyncRestored => 4,
        InstallStep::SyncRollback => 3,
        InstallStep::RemoveTemporary => 2,
        InstallStep::DropBackup => 1,
        InstallStep::Over => 0,
    }
}

/// An installation comes to its end: every result brings it closer.
pub proof fn law_installations_end(s: InstallView, result: StepView)
    ensures
        !(s.step is Over) ==> steps_left(advanced(s, result).step) < steps_left(s.step),
{
}

} // verus!
