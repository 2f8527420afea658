//! Updates on the robot: an artifact is downloaded, checked, unpacked and installed.

use sha2::Digest;
use vstd::prelude::*;

use crate::agent::error::Error;
use crate::agent::error::ErrorView;
use crate::ota::server::AckUpdateRequest;
use crate::scan;
use crate::scan::decimal_text;
use crate::text::{join2, same_text};

verus! {

/// The SHA-256 digest of bytes, as `sha2` computes it.
pub uninterp spec fn sha256_of(bytes: Seq<u8>) -> Seq<u8>;

/// The SHA-256 digest of bytes, 32 bytes long.
///
/// Calls `digest` on `sha2::Sha256`, which computes from the bytes alone.
#[verifier::external_body]
fn sha256(bytes: &Vec<u8>) -> (r: Vec<u8>)
    ensures
        r@ == sha256_of(bytes@),
        r@.len() == 32,
{
    sha2::Sha256::digest(bytes).to_vec()
}

/// Bytes in hexadecimal: two lower-case digits for each, the higher one first.
pub open spec fn hex_text(bytes: Seq<u8>) -> Seq<char> {
    Seq::new(
        2 * bytes.len(),
        |i: int|
            "0123456789abcdef"@[if i % 2 == 0 {
                bytes[i / 2] as int / 16
            } else {
                bytes[i / 2] as int % 16
            }],
    )
}

/// Bytes in hexadecimal: `hex::encode`.
#[verifier::external_body]
fn hex(bytes: &Vec<u8>) -> (r: String)
    ensures
        r@ == hex_text(bytes@),
{
    hex::encode(bytes)
}

/// The checksum of bytes as text.
pub open spec fn checksum_of(bytes: Seq<u8>) -> Seq<char> {
    hex_text(sha256_of(bytes))
}

/// Holds the checksum that was computed against the one that was given. Where none was given
/// they differ.
pub fn check_digest(actual: String, expected: &str) -> (r: Result<String, Error>)
    ensures
        if actual@ == expected@ {
            r matches Ok(digest) && digest@ == actual@
        } else {
            r matches Err(e) && e@ == (ErrorView::Checksum { expected: expected@, actual: actual@ })
        },
        r is Ok <==> actual@ == expected@,
        r matches Ok(digest) ==> digest@ == expected@,
{
    if !same_text(actual.as_str(), expected) {
        return Err(Error::Checksum { expected: expected.to_owned(), actual });
    }
    Ok(actual)
}

/// Computes the checksum of bytes and holds it against the one that was given. No bytes have
/// a checksum that is not 64 digits long, the empty one among them.
pub fn verify_checksum(bytes: &Vec<u8>, expected: &str) -> (r: Result<String, Error>)
    ensures
        expected@.len() != 64 ==> r is Err,
        if checksum_of(bytes@) == expected@ {
            r matches Ok(digest) && digest@ == checksum_of(bytes@)
        } else {
            r matches Err(e) && e@ == (ErrorView::Checksum {
                expected: expected@,
                actual: checksum_of(bytes@),
            })
        },
{
    let digest: Vec<u8> = sha256(bytes);
    check_digest(hex(&digest), expected)
}

/// What an installation waits for.
#[derive(Debug, Clone, Copy, PartialEq, Eq, Structural)]
pub enum Stage {
    Download,
    Store,
    Unpack,
    Search,
    Script,
    Done,
}

/// What happened to an installation.
#[derive(Debug)]
pub enum InstallEvent {
    /// The artifact was downloaded.
    Downloaded(Vec<u8>),
    /// The server could not be asked for the artifact.
    DownloadFailed(String),
    /// The server's answer could not be read.
    BodyFailed(String),
    /// The archive was written to disk, and there is a directory to unpack it in.
    Stored,
    /// The archive was unpacked, or not.
    Unpacked { success: bool },
    /// The script was looked for in what was unpacked.
    Searched { found: bool },
    /// The script ran to its end, with an exit code unless it was killed.
    Ran { success: bool, code: Option<i32> },
    /// A file or a process failed.
    Failed(String),
}

/// What happened to an installation.
pub enum EventView {
    Downloaded(Seq<u8>),
    DownloadFailed(Seq<char>),
    BodyFailed(Seq<char>),
    Stored,
    Unpacked { success: bool },
    Searched { found: bool },
    Ran { success: bool, code: Option<i32> },
    Failed(Seq<char>),
}

impl View for InstallEvent {
    type V = EventView;

    open spec fn view(&self) -> EventView {
        match self {
            InstallEvent::Downloaded(bytes) => EventView::Downloaded(bytes@),
            InstallEvent::DownloadFailed(m) => EventView::DownloadFailed(m@),
            InstallEvent::BodyFailed(m) => EventView::BodyFailed(m@),
            InstallEvent::Stored => EventView::Stored,
            InstallEvent::Unpacked { success } => EventView::Unpacked { success: *success },
            InstallEvent::Searched { found } => EventView::Searched { found: *found },
            InstallEvent::Ran { success, code } => EventView::Ran {
                success: *success,
                code: *code,
            },
            InstallEvent::Failed(m) => EventView::Failed(m@),
        }
    }
}

/// What is done next about an installation.
#[derive(Debug)]
pub enum InstallAction {
    /// Write the archive to disk and make a directory to unpack it in.
    Store(Vec<u8>),
    /// Unpack the archive.
    Unpack,
    /// Look for the script in what was unpacked.
    Search,
    /// Run the script.
    RunScript,
    /// It is over, well or not.
    Finish(Result<(), Error>),
}

/// What is done next about an installation.
#[verifier::ext_equal]
pub enum ActionView {
    Store(Seq<u8>),
    Unpack,
    Search,
    RunScript,
    Finish(Result<(), ErrorView>),
}

impl View for InstallAction {
    type V = ActionView;

    open spec fn view(&self) -> ActionView {
        match self {
            InstallAction::Store(bytes) => ActionView::Store(bytes@),
            InstallAction::Unpack => ActionView::Unpack,
            InstallAction::Search => ActionView::Search,
            InstallAction::RunScript => ActionView::RunScript,
            InstallAction::Finish(outcome) => ActionView::Finish(
                match outcome {
                    Ok(_) => Ok(()),
                    Err(e) => Err(e@),
                },
            ),
        }
    }
}

/// The event can happen in this stage.
pub open spec fn fits(stage: Stage, event: EventView) -> bool {
    match event {
        EventView::Downloaded(_) => stage == Stage::Download,
        EventView::DownloadFailed(_) => stage == Stage::Download,
        EventView::BodyFailed(_) => stage == Stage::Download,
        EventView::Stored => stage == Stage::Store,
        EventView::Unpacked { .. } => stage == Stage::Unpack,
        EventView::Searched { .. } => stage == Stage::Search,
        EventView::Ran { .. } => stage == Stage::Script,
        EventView::Failed(_) => stage != Stage::Done,
    }
}

/// The end of an installation that went wrong.
pub open spec fn gave_up(e: ErrorView) -> (Stage, ActionView) {
    (Stage::Done, ActionView::Finish(Err(e)))
}

/// What an event leads to.
pub open spec fn reaction(expected: Seq<char>, event: EventView) -> (Stage, ActionView) {
    match event {
        EventView::Downloaded(bytes) => if checksum_of(bytes) == expected {
            (Stage::Store, ActionView::Store(bytes))
        } else {
            gave_up(ErrorView::Checksum { expected, actual: checksum_of(bytes) })
        },
        EventView::DownloadFailed(m) => gave_up(ErrorView::Install("download failed: "@ + m)),
        EventView::BodyFailed(m) => gave_up(ErrorView::Install("read body failed: "@ + m)),
        EventView::Stored => (Stage::Unpack, ActionView::Unpack),
        EventView::Unpacked { success } => if success {
            (Stage::Search, ActionView::Search)
        } else {
            gave_up(ErrorView::Install("tar extraction failed"@))
        },
        EventView::Searched { found } => if found {
            (Stage::Script, ActionView::RunScript)
        } else {
            gave_up(ErrorView::Install("install.sh not found in artifact"@))
        },
        EventView::Ran { success, code } => if success {
            (Stage::Done, ActionView::Finish(Ok(())))
        } else {
            gave_up(
                ErrorView::Install(
                    "install.sh exited with: "@ + scan::decimal(
                        match code {
                            Some(c) => c as int,
                            None => -1,
                        },
                    ),
                ),
            )
        },
        EventView::Failed(m) => gave_up(ErrorView::Io(m)),
    }
}

/// An installation under way.
pub struct Installer {
    expected_sha256: String,
    stage: Stage,
}

impl Installer {
    /// The checksum that the artifact must have.
    pub closed spec fn expected(&self) -> Seq<char> {
        self.expected_sha256@
    }

    /// What the installation waits for.
    pub closed spec fn waits_for(&self) -> Stage {
        self.stage
    }

    /// An installation that starts with the download.
    pub fn new(expected_sha256: &str) -> (r: Installer)
        ensures
            r.expected() == expected_sha256@,
            r.waits_for() == Stage::Download,
    {
        Installer { expected_sha256: expected_sha256.to_owned(), stage: Stage::Download }
    }

    /// What the installation waits for.
    pub fn stage(&self) -> (r: Stage)
        ensures
            r == self.waits_for(),
    {
        self.stage
    }

    /// Something happened: what to do next.
    pub fn advance(&mut self, event: InstallEvent) -> (r: InstallAction)
        requires
            fits(old(self).waits_for(), event@),
        ensures
            final(self).expected() == old(self).expected(),
            (final(self).waits_for(), r@) == reaction(old(self).expected(), event@),
    {
        let failure: Error = match event {
            InstallEvent::Downloaded(bytes) => {
                match verify_checksum(&bytes, self.expected_sha256.as_str()) {
                    Ok(_) => {
                        self.stage = Stage::Store;
                        return InstallAction::Store(bytes);
                    },
                    Err(e) => e,
                }
            },
            InstallEvent::DownloadFailed(m) => Error::Install(
                join2("download failed: ", m.as_str()),
            ),
            InstallEvent::BodyFailed(m) => Error::Install(join2("read body failed: ", m.as_str())),
            InstallEvent::Stored => {
                self.stage = Stage::Unpack;
                return InstallAction::Unpack;
            },
            InstallEvent::Unpacked { success } => {
                if success {
                    self.stage = Stage::Search;
                    return InstallAction::Search;
                }
                Error::Install("tar extraction failed".to_owned())
            },
            InstallEvent::Searched { found } => {
                if found {
                    self.stage = Stage::Script;
                    return InstallAction::RunScript;
                }
                Error::Install("install.sh not found in artifact".to_owned())
            },
            InstallEvent::Ran { success, code } => {
                if success {
                    self.stage = Stage::Done;
                    return InstallAction::Finish(Ok(()));
                }
                let number: i32 = match code {
                    Some(c) => c,
                    None => -1,
                };
                let text: String = decimal_text(number);
                Error::Install(join2("install.sh exited with: ", text.as_str()))
            },
            InstallEvent::Failed(m) => Error::Io(m),
        };
        self.stage = Stage::Done;
        InstallAction::Finish(Err(failure))
    }
}

/// The stage after a series of events, each of which can happen when it does.
pub open spec fn stage_after(expected: Seq<char>, events: Seq<EventView>) -> Stage
    decreases events.len(),
{
    if events.len() == 0 {
        Stage::Download
    } else {
        reaction(expected, events.last()).0
    }
}

/// The events can happen one after the other.
pub open spec fn is_course(expected: Seq<char>, events: Seq<EventView>) -> bool
    decreases events.len(),
{
    events.len() > 0 ==> {
        &&& is_course(expected, events.drop_last())
        &&& fits(stage_after(expected, events.drop_last()), events.last())
    }
}

/// Nothing is written, unpacked or run but an artifact whose checksum is the one that was
/// given: whatever stage comes after the download, it began with such an artifact.
pub proof fn only_verified_artifacts_are_installed(expected: Seq<char>, events: Seq<EventView>)
    requires
        is_course(expected, events),
        stage_after(expected, events) != Stage::Download,
        stage_after(expected, events) != Stage::Done,
    ensures
        events[0] matches EventView::Downloaded(bytes) && checksum_of(bytes) == expected,
    decreases events.len(),
{
    if events.len() > 1 {
        only_verified_artifacts_are_installed(expected, events.drop_last());
        assert(events.drop_last()[0] == events[0]);
    } else {
        assert(events.drop_last() =~= Seq::empty());
        assert(events[0] == events.last());
    }
}

/// An installation succeeds in one way only: an artifact with the checksum that was given was
/// downloaded, stored and unpacked, the script was found in it, and it ran well.
pub proof fn success_means_every_step_succeeded(expected: Seq<char>, events: Seq<EventView>)
    requires
        is_course(expected, events),
        events.len() > 0,
        reaction(expected, events.last()).1 == ActionView::Finish(Ok(())),
    ensures
        events.len() == 5,
        events[0] matches EventView::Downloaded(bytes) && checksum_of(bytes) == expected,
        events[1] is Stored,
        events[2] == (EventView::Unpacked { success: true }),
        events[3] == (EventView::Searched { found: true }),
        events[4] matches EventView::Ran { success, .. } && success,
{
    let a = events.drop_last();
    let b = a.drop_last();
    let c = b.drop_last();
    let d = c.drop_last();
    let e = d.drop_last();
    reveal_with_fuel(is_course, 6);
    assert(a.len() > 0 && b.len() > 0 && c.len() > 0 && d.len() > 0);
    assert(stage_after(expected, e) == Stage::Download);
    if e.len() > 0 {
        assert(reaction(expected, e.last()).0 != Stage::Download);
    }
}

/// What the service is told about an installation: how it went, what went wrong, and which
/// version runs now.
pub fn make_ack(
    update_job_id: &str,
    target_version: &str,
    device_id: &str,
    outcome: &Result<(), Error>,
) -> (r: AckUpdateRequest)
    ensures
        r.update_job_id@ == update_job_id@,
        r.device_id@ == device_id@,
        match outcome {
            Ok(_) => r.success && r.error_message@.len() == 0 && r.version@ == target_version@,
            Err(e) => !r.success && r.error_message@ == e@.message() && r.version@.len() == 0,
        },
        r.success <==> outcome is Ok,
{
    match outcome {
        Ok(_) => AckUpdateRequest {
            update_job_id: update_job_id.to_owned(),
            device_id: device_id.to_owned(),
            success: true,
            error_message: String::new(),
            version: target_version.to_owned(),
        },
        Err(e) => AckUpdateRequest {
            update_job_id: update_job_id.to_owned(),
            device_id: device_id.to_owned(),
            success: false,
            error_message: e.message(),
            version: String::new(),
        },
    }
}

/// A download is stored exactly where its checksum is the one that was given, and what is
/// stored is what was downloaded; otherwise it is refused with both checksums.
pub proof fn downloads_are_stored_as_they_came(expected: Seq<char>, bytes: Seq<u8>)
    ensures
        hex_text(sha256_of(bytes)) == expected ==> reaction(expected, EventView::Downloaded(bytes))
            == (Stage::Store, ActionView::Store(bytes)),
        hex_text(sha256_of(bytes)) != expected ==> {
            let (stage, action) = reaction(expected, EventView::Downloaded(bytes));
            &&& stage == Stage::Done
            &&& action matches ActionView::Finish(Err(e)) && e is Checksum && e->expected == expected
                && e->actual == hex_text(sha256_of(bytes))
        },
{
}

/// Where every step succeeds the installation takes its course: the artifact is stored,
/// unpacked and searched, the script in it is run, and the installation is over, well.
pub proof fn installation_takes_its_course(
    expected: Seq<char>,
    bytes: Seq<u8>,
    code: Option<i32>,
)
    requires
        hex_text(sha256_of(bytes)) == expected,
    ensures
        ({
            let events = seq![
                EventView::Downloaded(bytes),
                EventView::Stored,
                EventView::Unpacked { success: true },
                EventView::Searched { found: true },
                EventView::Ran { success: true, code },
            ];
            let actions = seq![
                ActionView::Store(bytes),
                ActionView::Unpack,
                ActionView::Search,
                ActionView::RunScript,
                ActionView::Finish(Ok(())),
            ];
            &&& is_course(expected, events)
            &&& forall|i: int| #![trigger actions[i]]
                0 <= i < 5 ==> reaction(expected, events[i]).1 == actions[i]
            &&& reaction(expected, events[4]).0 == Stage::Done
        }),
{
    let events = seq![
        EventView::Downloaded(bytes),
        EventView::Stored,
        EventView::Unpacked { success: true },
        EventView::Searched { found: true },
        EventView::Ran { success: true, code },
    ];
    let a = events.drop_last();
    let b = a.drop_last();
    let c = b.drop_last();
    let d = c.drop_last();
    let e = d.drop_last();
    assert(e =~= Seq::empty());
    assert(is_course(expected, e));
    assert(d.last() == events[0] && c.last() == events[1]);
    assert(b.last() == events[2] && a.last() == events[3]);
    assert(is_course(expected, d));
    assert(is_course(expected, c));
    assert(is_course(expected, b));
    assert(is_course(expected, a));
    assert(is_course(expected, events));
}

/// The sentence with which an installation fails.
pub open spec fn failure_of(expected: Seq<char>, event: EventView) -> Option<Seq<char>> {
    match reaction(expected, event).1 {
        ActionView::Finish(Err(e)) => Some(e.message()),
        _ => None,
    }
}

/// A step that fails ends the installation, and the service is told which step it was, and
/// why.
pub proof fn failed_steps_are_told(expected: Seq<char>, m: Seq<char>, code: i32)
    ensures
        failure_of(expected, EventView::DownloadFailed(m)) == Some(
            "install script failed: "@ + ("download failed: "@ + m),
        ),
        failure_of(expected, EventView::BodyFailed(m)) == Some(
            "install script failed: "@ + ("read body failed: "@ + m),
        ),
        failure_of(expected, EventView::Unpacked { success: false }) == Some(
            "install script failed: "@ + "tar extraction failed"@,
        ),
        failure_of(expected, EventView::Searched { found: false }) == Some(
            "install script failed: "@ + "install.sh not found in artifact"@,
        ),
        failure_of(expected, EventView::Ran { success: false, code: Some(code) }) == Some(
            "install script failed: "@ + ("install.sh exited with: "@ + scan::decimal(code as int)),
        ),
        failure_of(expected, EventView::Ran { success: false, code: None }) == Some(
            "install script failed: "@ + ("install.sh exited with: "@ + seq!['-', '1']),
        ),
        failure_of(expected, EventView::Failed(m)) == Some("IO error: "@ + m),
        forall|event: EventView| #[trigger]
            failure_of(expected, event) is Some ==> reaction(expected, event).0 == Stage::Done,
{
    scan::numbers_are_written_digit_by_digit(1, 1);
    scan::numbers_are_written_digit_by_digit(1, 0);
    assert(scan::decimal(1) =~= seq!['1']);
    assert(scan::decimal(-1) =~= seq!['-', '1']);
}

/// Each step waits for the one before it: an event can happen in one stage only, but for a
/// file or a process that fails, which can happen until the installation is over.
pub proof fn events_have_their_stage(stage: Stage, event: EventView)
    ensures
        stage == Stage::Done ==> !fits(stage, event),
        event is Failed && stage != Stage::Done ==> fits(stage, event),
        event is Downloaded || event is DownloadFailed || event is BodyFailed ==> (fits(
            stage,
            event,
        ) <==> stage == Stage::Download),
        event is Stored ==> (fits(stage, event) <==> stage == Stage::Store),
        event is Unpacked ==> (fits(stage, event) <==> stage == Stage::Unpack),
        event is Searched ==> (fits(stage, event) <==> stage == Stage::Search),
        event is Ran ==> (fits(stage, event) <==> stage == Stage::Script),
{
}

/// The character of a hexadecimal digit.
pub open spec fn hex_digit(d: int) -> char {
    if d < 10 {
        ('0' as int + d) as char
    } else {
        ('a' as int + d - 10) as char
    }
}

/// In hexadecimal the bytes come one after the other, each as two digits that say how often
/// sixteen is in it and what is left.
pub proof fn bytes_are_two_digits_each(bytes: Seq<u8>, byte: u8)
    ensures
        hex_text(Seq::empty()) == Seq::<char>::empty(),
        hex_text(bytes.push(byte)) == hex_text(bytes) + seq![
            hex_digit(byte as int / 16),
            hex_digit(byte as int % 16),
        ],
{
    reveal_strlit("0123456789abcdef");
    let all = hex_text(bytes.push(byte));
    let two = seq![hex_digit(byte as int / 16), hex_digit(byte as int % 16)];
    assert(hex_text(Seq::empty()) =~= Seq::<char>::empty());
    let n = bytes.len() as int;
    assert forall|i: int| 0 <= i < all.len() implies all[i] == (hex_text(bytes) + two)[i] by {
        if i < 2 * n {
            assert(bytes.push(byte)[i / 2] == bytes[i / 2]);
        } else {
            assert(i == 2 * n || i == 2 * n + 1);
            assert(i / 2 == n);
        }
    }
    assert(all =~= hex_text(bytes) + two);
}

/// Events and actions say what they are.
pub proof fn events_and_actions_say_what_they_are(
    bytes: Vec<u8>,
    m: String,
    flag: bool,
    code: Option<i32>,
    e: Error,
)
    ensures
        InstallEvent::Downloaded(bytes)@ == EventView::Downloaded(bytes@),
        InstallEvent::DownloadFailed(m)@ == EventView::DownloadFailed(m@),
        InstallEvent::BodyFailed(m)@ == EventView::BodyFailed(m@),
        InstallEvent::Stored@ == EventView::Stored,
        (InstallEvent::Unpacked { success: flag })@ == (EventView::Unpacked { success: flag }),
        (InstallEvent::Searched { found: flag })@ == (EventView::Searched { found: flag }),
        (InstallEvent::Ran { success: flag, code })@ == (EventView::Ran { success: flag, code }),
        InstallEvent::Failed(m)@ == EventView::Failed(m@),
        InstallAction::Store(bytes)@ == ActionView::Store(bytes@),
        InstallAction::Unpack@ == ActionView::Unpack,
        InstallAction::Search@ == ActionView::Search,
        InstallAction::RunScript@ == ActionView::RunScript,
        InstallAction::Finish(Ok(()))@ == ActionView::Finish(Ok(())),
        InstallAction::Finish(Err(e))@ == ActionView::Finish(Err(e@)),
{
}

} // verus!
