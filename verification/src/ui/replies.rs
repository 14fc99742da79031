//! What the status line says once something was done.

use vstd::prelude::*;

use crate::client::ControlError;
use crate::model::CtlModel;
use crate::text::{decimal, push_decimal, push_str};

verus! {

/// Something that was to be done.
#[derive(Debug, Clone, Copy, PartialEq, Eq, Structural)]
pub enum Task {
    LoadModel,
    LoadReports,
    LoadDatasets,
    LoadControls,
    LoadSettings,
    LoadLogs,
    Write,
    TakeControl,
    Operate,
    EnableReport,
    Interrogate,
    DisableReport,
    ReadDataset,
    ReadSettings,
    Activate,
    ListFiles,
    Download,
    Save,
    QueryLog,
}

impl Task {
    /// What a failure is introduced with.
    pub open spec fn text(self) -> Seq<char> {
        match self {
            Task::LoadModel => "model load failed: "@,
            Task::LoadReports => "reports: "@,
            Task::LoadDatasets => "datasets: "@,
            Task::LoadControls => "controls: "@,
            Task::LoadSettings => "setting groups: "@,
            Task::LoadLogs => "logs: "@,
            Task::Write => "write failed: "@,
            Task::TakeControl => "control setup failed: "@,
            Task::Operate => "operate failed: "@,
            Task::EnableReport => "enable failed: "@,
            Task::Interrogate => "GI failed: "@,
            Task::DisableReport => "disable failed: "@,
            Task::ReadDataset => "read dataset: "@,
            Task::ReadSettings => "read SGCB: "@,
            Task::Activate => "select active SG: "@,
            Task::ListFiles => "file directory: "@,
            Task::Download => "download failed: "@,
            Task::Save => "save failed: "@,
            Task::QueryLog => "query log: "@,
        }
    }

    /// What is said of a failure.
    pub fn complaint(self, e: &str) -> (s: String)
        ensures
            s@ == self.text() + e@,
    {
        let mut s = (match self {
            Task::LoadModel => "model load failed: ",
            Task::LoadReports => "reports: ",
            Task::LoadDatasets => "datasets: ",
            Task::LoadControls => "controls: ",
            Task::LoadSettings => "setting groups: ",
            Task::LoadLogs => "logs: ",
            Task::Write => "write failed: ",
            Task::TakeControl => "control setup failed: ",
            Task::Operate => "operate failed: ",
            Task::EnableReport => "enable failed: ",
            Task::Interrogate => "GI failed: ",
            Task::DisableReport => "disable failed: ",
            Task::ReadDataset => "read dataset: ",
            Task::ReadSettings => "read SGCB: ",
            Task::Activate => "select active SG: ",
            Task::ListFiles => "file directory: ",
            Task::Download => "download failed: ",
            Task::Save => "save failed: ",
            Task::QueryLog => "query log: ",
        }).to_owned();
        push_str(&mut s, e);
        s
    }
}

/// What is said of a value that was written; it is given as it reads.
pub fn wrote(reference: &str, shown: &str) -> (s: String)
    ensures
        s@ == "wrote "@ + reference@ + " = "@ + shown@,
{
    let mut s = "wrote ".to_owned();
    push_str(&mut s, reference);
    push_str(&mut s, " = ");
    push_str(&mut s, shown);
    s
}

/// What is said of an object that was operated.
pub fn operated(reference: &str, on: bool, model: CtlModel) -> (s: String)
    ensures
        s@ == "operated "@ + reference@ + " = "@ + (if on {
            "true"@
        } else {
            "false"@
        }) + " ("@ + model.text() + ")"@,
{
    let mut s = "operated ".to_owned();
    push_str(&mut s, reference);
    push_str(&mut s, " = ");
    push_str(
        &mut s,
        if on {
            "true"
        } else {
            "false"
        },
    );
    push_str(&mut s, " (");
    push_str(&mut s, model.to_text());
    push_str(&mut s, ")");
    s
}

/// What is said of a control that the device refused: its own diagnosis says far
/// more than the transport error underneath it.
pub fn rejected(e: &ControlError) -> (s: String)
    ensures
        s@ == "operate rejected ("@ + e.stage.text() + "): "@ + e.add_cause.text(),
{
    let mut s = "operate rejected (".to_owned();
    push_str(&mut s, e.stage.to_text());
    push_str(&mut s, "): ");
    push_str(&mut s, e.add_cause.to_text());
    s
}

/// What is said of a report control block that was enabled.
pub fn enabled(reference: &str) -> (s: String)
    ensures
        s@ == "reporting enabled on "@ + reference@,
{
    let mut s = "reporting enabled on ".to_owned();
    push_str(&mut s, reference);
    s
}

/// What is said of a general interrogation that was asked for.
pub fn interrogated() -> (s: String)
    ensures
        s@ == "general interrogation sent"@,
{
    "general interrogation sent".to_owned()
}

/// What is said of a report control block that was disabled.
pub fn disabled() -> (s: String)
    ensures
        s@ == "reporting disabled"@,
{
    "reporting disabled".to_owned()
}

/// What is said of a setting group that was activated.
pub fn activated(group: u8) -> (s: String)
    ensures
        s@ == "active setting group = "@ + decimal(group as nat),
{
    let mut s = "active setting group = ".to_owned();
    push_decimal(&mut s, group as u64);
    s
}

/// A failure is told of the task that failed.
pub proof fn a_failed_task_is_named(x: Task)
    ensures
        x == Task::LoadModel ==> x.text() == "model load failed: "@,
        x == Task::LoadReports ==> x.text() == "reports: "@,
        x == Task::LoadDatasets ==> x.text() == "datasets: "@,
        x == Task::LoadControls ==> x.text() == "controls: "@,
        x == Task::LoadSettings ==> x.text() == "setting groups: "@,
        x == Task::LoadLogs ==> x.text() == "logs: "@,
        x == Task::Write ==> x.text() == "write failed: "@,
        x == Task::TakeControl ==> x.text() == "control setup failed: "@,
        x == Task::Operate ==> x.text() == "operate failed: "@,
        x == Task::EnableReport ==> x.text() == "enable failed: "@,
        x == Task::Interrogate ==> x.text() == "GI failed: "@,
        x == Task::DisableReport ==> x.text() == "disable failed: "@,
        x == Task::ReadDataset ==> x.text() == "read dataset: "@,
        x == Task::ReadSettings ==> x.text() == "read SGCB: "@,
        x == Task::Activate ==> x.text() == "select active SG: "@,
        x == Task::ListFiles ==> x.text() == "file directory: "@,
        x == Task::Download ==> x.text() == "download failed: "@,
        x == Task::Save ==> x.text() == "save failed: "@,
        x == Task::QueryLog ==> x.text() == "query log: "@,
{
}

} // verus!
