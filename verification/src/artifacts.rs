//! Metrics and files that the training process reports.
use crate::metrics::{ArtifactMetric, ScalarMetric};
use crate::order::{all_places, holds_place, law_sorted_by_name, less, sort_places, sorted};
use crate::text::concat3;
use vstd::prelude::*;
use vstd::string::*;

verus! {

/// Bytes per chunk of a reported file.
pub const CHUNK_BYTES: usize = 2_097_152;

/// What is reported.
pub enum MetricCommand {
    Scalar(ScalarMetric),
    Artifact {
        path: String,
        name: String,
        step: u64,
        content_type: Option<String>,
        timestamp_unix_ms: i64,
    },
    Directory { path: String, name: String, step: u64, timestamp_unix_ms: i64 },
}

/// A file to be sent; the type of its content is guessed where none is given.
/// A file of a directory goes by the number under which it was listed, for its
/// path as a text may stand for another file.
pub struct FileReport {
    pub path: String,
    pub listed: Option<usize>,
    pub name: String,
    pub step: u64,
    pub content_type: Option<String>,
    pub timestamp_unix_ms: i64,
}

/// What a command takes.
pub enum Job {
    /// Send this metric.
    Send(ScalarMetric),
    /// Send this file.
    SendFile(FileReport),
    /// List this directory and send its files under this name.
    SendFiles { path: String, name: String, step: u64, timestamp_unix_ms: i64 },
}

/// What a command takes.
pub open spec fn job_spec(command: MetricCommand) -> Job {
    match command {
        MetricCommand::Scalar(metric) => Job::Send(metric),
        MetricCommand::Artifact { path, name, step, content_type, timestamp_unix_ms } =>
            Job::SendFile(
            FileReport { path, listed: None, name, step, content_type, timestamp_unix_ms },
        ),
        MetricCommand::Directory { path, name, step, timestamp_unix_ms } => Job::SendFiles {
            path,
            name,
            step,
            timestamp_unix_ms,
        },
    }
}

/// What a command takes.
pub fn job(command: MetricCommand) -> (job: Job)
    ensures
        job == job_spec(command),
        command matches MetricCommand::Scalar(metric) ==> job == Job::Send(metric),
        command matches MetricCommand::Artifact { path, name, step, content_type, timestamp_unix_ms }
            ==> (job matches Job::SendFile(report) && report.path@ == path@ && report.name@ == name@
            && report.step == step && report.content_type == content_type
            && report.timestamp_unix_ms == timestamp_unix_ms && report.listed is None),
        command matches MetricCommand::Directory { path, name, step, timestamp_unix_ms } ==> job == (
        Job::SendFiles { path, name, step, timestamp_unix_ms }),
{
    match command {
        MetricCommand::Scalar(metric) => Job::Send(metric),
        MetricCommand::Artifact { path, name, step, content_type, timestamp_unix_ms } =>
            Job::SendFile(
            FileReport { path, listed: None, name, step, content_type, timestamp_unix_ms },
        ),
        MetricCommand::Directory { path, name, step, timestamp_unix_ms } => Job::SendFiles {
            path,
            name,
            step,
            timestamp_unix_ms,
        },
    }
}

/// The media type that `mime_guess` gives to a path.
pub uninterp spec fn guessed_type(path: Seq<char>) -> Seq<char>;

/// `mime_guess::from_path`, its first guess or `application/octet-stream`,
/// without parameters: a media type that depends on the path alone.
#[verifier::external_body]
fn guess_type(path: &str) -> (content_type: String)
    ensures
        content_type@ == guessed_type(path@),
{
    mime_guess::from_path(path).first_or_octet_stream().essence_str().to_owned()
}

/// The type of a file's content: the one that is given, or a guess.
pub fn content_type(path: &str, given: Option<String>) -> (content_type: String)
    ensures
        content_type@ == match given {
            Some(given) => given@,
            None => guessed_type(path@),
        },
{
    match given {
        Some(given) => given,
        None => guess_type(path),
    }
}

/// The message describes a file of this size.
pub open spec fn is_description(
    artifact: ArtifactMetric,
    report: FileReport,
    size_bytes: u64,
) -> bool {
    &&& artifact.step == report.step
    &&& artifact.timestamp_unix_ms == report.timestamp_unix_ms
    &&& artifact.name@ == report.name@
    &&& artifact.content_type@ == match report.content_type {
        Some(given) => given@,
        None => guessed_type(report.path@),
    }
    &&& artifact.size_bytes == size_bytes
}

/// The message that describes a file of this size.
pub fn describe(report: FileReport, size_bytes: u64) -> (artifact: ArtifactMetric)
    ensures
        is_description(artifact, report, size_bytes),
        artifact.step == report.step,
        artifact.timestamp_unix_ms == report.timestamp_unix_ms,
        artifact.name@ == report.name@,
        artifact.size_bytes == size_bytes,
        report.content_type matches Some(given) ==> artifact.content_type@ == given@,
        report.content_type is None ==> artifact.content_type@ == guessed_type(report.path@),
{
    ArtifactMetric {
        step: report.step,
        timestamp_unix_ms: report.timestamp_unix_ms,
        name: report.name,
        content_type: content_type(report.path.as_str(), report.content_type),
        size_bytes,
    }
}

/// The time since the epoch in milliseconds; a clock before the epoch reads
/// zero.
pub fn now_unix_ms(elapsed_millis: Option<u128>) -> (millis: i64)
    ensures
        elapsed_millis is None ==> millis == 0,
        elapsed_millis matches Some(elapsed) ==> millis == elapsed as i64,
        elapsed_millis matches Some(elapsed) ==> (elapsed <= i64::MAX ==> millis == elapsed),
{
    match elapsed_millis {
        Some(elapsed) => elapsed as i64,
        None => 0,
    }
}

/// The name of an entry in relation to the directory that is listed.
pub open spec fn below(parent: Seq<char>, name: Seq<char>) -> Seq<char> {
    if parent.len() == 0 { name } else { parent + seq!['/'] + name }
}

/// Lists a directory and all below it. Entries are numbered as they are found;
/// number zero is the directory itself.
pub struct DirectoryWalk {
    relatives: Vec<String>,
    pending: Vec<usize>,
    files: Vec<usize>,
}

/// What a walk has found.
pub struct Walked {
    /// The names of the entries, by number.
    pub relatives: Seq<Seq<char>>,
    /// The directories that are still to be listed.
    pub pending: Seq<usize>,
    /// The files, as they were found.
    pub files: Seq<usize>,
}

/// The texts of some strings.
pub open spec fn texts(strings: Seq<String>) -> Seq<Seq<char>> {
    strings.map_values(|text: String| text@)
}

impl View for DirectoryWalk {
    type V = Walked;

    closed spec fn view(&self) -> Walked {
        Walked { relatives: texts(self.relatives@), pending: self.pending@, files: self.files@ }
    }
}

/// A file with its number and its name in relation to the directory.
pub struct FoundFile {
    pub number: usize,
    pub relative: String,
}

impl DirectoryWalk {
    /// All that is listed has been found, and no file twice.
    pub open spec fn wf(self) -> bool {
        &&& forall|i: int|
            0 <= i < self@.pending.len() ==> (#[trigger] self@.pending[i]) < self@.relatives.len()
        &&& forall|i: int|
            0 <= i < self@.files.len() ==> (#[trigger] self@.files[i]) < self@.relatives.len()
        &&& self@.files.no_duplicates()
    }

    /// A walk that begins with the directory itself.
    pub fn new() -> (walk: DirectoryWalk)
        ensures
            walk.wf(),
            walk@ == (Walked {
                relatives: seq![Seq::<char>::empty()],
                pending: seq![0usize],
                files: Seq::empty(),
            }),
    {
        let mut relatives: Vec<String> = Vec::new();
        relatives.push(String::new());
        let mut pending: Vec<usize> = Vec::new();
        pending.push(0);
        let walk = DirectoryWalk { relatives, pending, files: Vec::new() };
        assert(texts(walk.relatives@) =~= seq![Seq::<char>::empty()]);
        assert(walk.pending@ =~= seq![0usize]);
        assert(walk.files@ =~= Seq::<usize>::empty());
        walk
    }

    /// The directory to list next: the one found last.
    pub fn next_directory(&mut self) -> (number: Option<usize>)
        requires
            old(self).wf(),
        ensures
            final(self).wf(),
            match number {
                Some(number) => {
                    &&& old(self)@.pending.len() > 0
                    &&& number == old(self)@.pending.last()
                    &&& number < final(self)@.relatives.len()
                    &&& final(self)@ == (Walked {
                        pending: old(self)@.pending.drop_last(),
                        ..old(self)@
                    })
                },
                None => old(self)@.pending.len() == 0 && final(self)@ == old(self)@,
            },
    {
        let number = self.pending.pop();
        proof {
            if number is Some {
                assert(self@.pending =~= old(self)@.pending.drop_last());
                assert forall|i: int| 0 <= i < self@.pending.len() implies (
                #[trigger] self@.pending[i]) < self@.relatives.len() by {
                    assert(old(self)@.pending[i] < old(self)@.relatives.len());
                }
                let last = old(self)@.pending.len() - 1;
                assert(old(self)@.pending[last] < old(self)@.relatives.len());
            }
        }
        number
    }

    /// An entry was found in a directory.
    pub fn entry(&mut self, parent: usize, name: &str, is_dir: bool) -> (number: usize)
        requires
            old(self).wf(),
            parent < old(self)@.relatives.len(),
        ensures
            final(self).wf(),
            number == old(self)@.relatives.len(),
            final(self)@ == (Walked {
                relatives: old(self)@.relatives.push(
                    below(old(self)@.relatives[parent as int], name@),
                ),
                pending: if is_dir {
                    old(self)@.pending.push(number)
                } else {
                    old(self)@.pending
                },
                files: if is_dir {
                    old(self)@.files
                } else {
                    old(self)@.files.push(number)
                },
            }),
    {
        let number: usize = self.relatives.len();
        let relative = if self.relatives[parent].as_str().unicode_len() == 0 {
            name.to_owned()
        } else {
            proof {
                reveal_strlit("/");
                assert("/"@ =~= seq!['/']);
            }
            concat3(self.relatives[parent].as_str(), "/", name)
        };
        let ghost before = self.relatives@;
        self.relatives.push(relative);
        assert(texts(self.relatives@) =~= texts(before).push(relative@));
        if is_dir {
            self.pending.push(number);
        } else {
            self.files.push(number);
        }
        proof {
            assert forall|i: int| 0 <= i < self@.pending.len() implies (
            #[trigger] self@.pending[i]) < self@.relatives.len() by {
                if i < old(self)@.pending.len() {
                    assert(old(self)@.pending[i] < old(self)@.relatives.len());
                }
            }
            assert forall|i: int| 0 <= i < self@.files.len() implies (#[trigger] self@.files[i])
                < self@.relatives.len() by {
                if i < old(self)@.files.len() {
                    assert(old(self)@.files[i] < old(self)@.relatives.len());
                }
            }
        }
        number
    }

    /// The files in the order of their names.
    pub fn finish(self) -> (found: Vec<FoundFile>)
        requires
            self.wf(),
        ensures
            is_listing(self@, found@),
    {
        let mut names: Vec<Vec<u8>> = Vec::new();
        let mut i: usize = 0;
        while i < self.files.len()
            invariant
                self.wf(),
                i <= self.files@.len(),
                names@.len() == i,
                forall|k: int|
                    0 <= k < i ==> (#[trigger] names@[k])@ == vstd::utf8::encode_utf8(
                        self@.relatives[self@.files[k] as int],
                    ),
            decreases self.files@.len() - i,
        {
            assert(self@.files[i as int] < self@.relatives.len());
            let number: usize = self.files[i];
            names.push(self.relatives[number].as_str().as_bytes_vec());
            i = i + 1;
        }
        let places = sort_places(&names);
        let mut found: Vec<FoundFile> = Vec::new();
        let mut k: usize = 0;
        while k < places.len()
            invariant
                self.wf(),
                names@.len() == self.files@.len(),
                all_places(places@, names@.len()),
                k <= places@.len(),
                found@.len() == k,
                forall|j: int|
                    0 <= j < k ==> {
                        &&& (#[trigger] found@[j]).number == self@.files[places@[j] as int]
                        &&& found@[j].relative@ == self@.relatives[found@[j].number as int]
                    },
            decreases places@.len() - k,
        {
            assert(places@[k as int] < names@.len());
            let place: usize = places[k];
            assert(self@.files[place as int] < self@.relatives.len());
            let number: usize = self.files[place];
            found.push(FoundFile { number, relative: self.relatives[number].clone() });
            k = k + 1;
        }
        assert(listed(self@, found@, names@, places@));
        found
    }
}

/// The listing takes the files at these places, whose names are in order.
pub open spec fn listed(
    walked: Walked,
    found: Seq<FoundFile>,
    names: Seq<Vec<u8>>,
    places: Seq<usize>,
) -> bool {
    &&& names.len() == walked.files.len()
    &&& forall|i: int|
        0 <= i < names.len() ==> (#[trigger] names[i])@ == vstd::utf8::encode_utf8(
            walked.relatives[walked.files[i] as int],
        )
    &&& all_places(places, names.len())
    &&& sorted(names, places)
    &&& found.len() == places.len()
    &&& forall|i: int|
        0 <= i < found.len() ==> {
            &&& (#[trigger] found[i]).number == walked.files[places[i] as int]
            &&& found[i].relative@ == walked.relatives[found[i].number as int]
        }
}

/// The files that were found, each once, in the byte order of their names.
pub open spec fn is_listing(walked: Walked, found: Seq<FoundFile>) -> bool {
    exists|names: Seq<Vec<u8>>, places: Seq<usize>| #[trigger]
        listed(walked, found, names, places)
}

/// The listing holds the file with this number.
pub open spec fn holds_file(found: Seq<FoundFile>, number: usize) -> bool {
    exists|i: int| 0 <= i < found.len() && (#[trigger] found[i]).number == number
}

/// A listing holds every file that was found, and none of them twice.
pub proof fn law_listing_is_complete(walk: DirectoryWalk, found: Seq<FoundFile>)
    requires
        walk.wf(),
        is_listing(walk@, found),
    ensures
        found.len() == walk@.files.len(),
        forall|i: int, j: int|
            0 <= i < j < found.len() ==> (#[trigger] found[i]).number != (
            #[trigger] found[j]).number,
        forall|k: int| 0 <= k < walk@.files.len() ==> holds_file(found, #[trigger] walk@.files[k]),
{
    let walked = walk@;
    let (names, places) = choose|names: Seq<Vec<u8>>, places: Seq<usize>| #[trigger]
        listed(walked, found, names, places);
    assert forall|i: int, j: int| 0 <= i < j < found.len() implies (#[trigger] found[i]).number != (
    #[trigger] found[j]).number by {
        assert(places[i] != places[j]);
        assert(places[i] < names.len());
        assert(places[j] < names.len());
    }
    assert forall|k: int| 0 <= k < walked.files.len() implies holds_file(
        found,
        #[trigger] walked.files[k],
    ) by {
        assert(holds_place(places, k));
        let i = choose|i: int| 0 <= i < places.len() && #[trigger] places[i] == k;
        assert(found[i].number == walked.files[k]);
    }
}

/// A file of a listed directory: its number, its path as a text, and its name
/// in relation to the directory.
pub struct ListedFile {
    pub number: usize,
    pub path: String,
    pub relative: String,
}

/// The report is that of a file of a listed directory.
pub open spec fn is_file_report(
    report: FileReport,
    file: ListedFile,
    name: Seq<char>,
    step: u64,
    timestamp_unix_ms: i64,
) -> bool {
    &&& report.path == file.path
    &&& report.listed == Some(file.number)
    &&& report.name@ == name + "/"@ + file.relative@
    &&& report.step == step
    &&& report.content_type is None
    &&& report.timestamp_unix_ms == timestamp_unix_ms
}

/// The file of a listed directory as it is reported: its name stands below the
/// name of the directory.
pub fn report_file(
    file: ListedFile,
    name: &str,
    step: u64,
    timestamp_unix_ms: i64,
) -> (report: FileReport)
    ensures
        is_file_report(report, file, name@, step, timestamp_unix_ms),
        report.path@ == file.path@,
        report.listed == Some(file.number),
        report.name@ == name@ + "/"@ + file.relative@,
        report.step == step,
        report.content_type is None,
        report.timestamp_unix_ms == timestamp_unix_ms,
{
    FileReport {
        path: file.path,
        listed: Some(file.number),
        name: concat3(name, "/", file.relative.as_str()),
        step,
        content_type: None,
        timestamp_unix_ms,
    }
}

/// Whether metrics can still be reported.
pub fn may_report(open: bool) -> (result: Result<(), String>)
    ensures
        match result {
            Ok(()) => open,
            Err(message) => !open && message@ == "metrics stream is closed"@,
        },
{
    if open {
        Ok(())
    } else {
        Err("metrics stream is closed".to_owned())
    }
}

/// A command is done as it was given: a metric is sent as it is, a file with
/// its own path, name, step, type and time, and a directory is listed under its
/// path and its files sent under its name.
pub proof fn law_command_is_done_as_given(command: MetricCommand)
    ensures
        command matches MetricCommand::Scalar(metric) ==> job_spec(command) == Job::Send(metric),
        command matches MetricCommand::Artifact { path, name, step, content_type, timestamp_unix_ms }
            ==> (job_spec(command) matches Job::SendFile(report) && report.path == path
            && report.name == name && report.step == step && report.content_type == content_type
            && report.timestamp_unix_ms == timestamp_unix_ms && report.listed is None),
        command matches MetricCommand::Directory { path, name, step, timestamp_unix_ms } ==> (
        job_spec(command) matches Job::SendFiles {
            path: listed_path,
            name: listed_name,
            step: listed_step,
            timestamp_unix_ms: listed_time,
        } && listed_path == path && listed_name == name && listed_step == step && listed_time
            == timestamp_unix_ms),
{
}

/// The files of a directory stand in the byte order of their names, and each
/// goes by the name under which it was found.
pub proof fn law_listing_is_in_byte_order(
    walk: DirectoryWalk,
    found: Seq<FoundFile>,
    i: int,
    j: int,
)
    requires
        walk.wf(),
        is_listing(walk@, found),
        0 <= i < j < found.len(),
    ensures
        !less(
            vstd::utf8::encode_utf8(found[j].relative@),
            vstd::utf8::encode_utf8(found[i].relative@),
        ),
        found[i].relative@ == walk@.relatives[found[i].number as int],
        found[j].relative@ == walk@.relatives[found[j].number as int],
{
    let walked = walk@;
    let (names, places) = choose|names: Seq<Vec<u8>>, places: Seq<usize>| #[trigger]
        listed(walked, found, names, places);
    law_sorted_by_name(names, places, i, j);
    assert(places[i] < names.len() && places[j] < names.len());
    let (a, b) = (places[i] as int, places[j] as int);
    assert(names[a]@ == vstd::utf8::encode_utf8(walked.relatives[walked.files[a] as int]));
    assert(names[b]@ == vstd::utf8::encode_utf8(walked.relatives[walked.files[b] as int]));
    assert(found[i].number == walked.files[a]);
    assert(found[j].number == walked.files[b]);
}

/// What is found in the directory itself goes by its own name, and what is
/// found below goes by the name of its directory, a slash and its own name.
pub proof fn law_names_below(parent: Seq<char>, name: Seq<char>)
    ensures
        below(Seq::<char>::empty(), name) == name,
        parent.len() > 0 ==> {
            &&& below(parent, name).len() == parent.len() + 1 + name.len()
            &&& below(parent, name).take(parent.len() as int) == parent
            &&& below(parent, name)[parent.len() as int] == '/'
            &&& below(parent, name).skip(parent.len() + 1int) == name
        },
{
    if parent.len() > 0 {
        assert(below(parent, name).take(parent.len() as int) =~= parent);
        assert(below(parent, name).skip(parent.len() + 1int) =~= name);
    }
}

/// A description is that of its report: the name, the step and the time are the
/// report's, the size is the one that was measured, and the type is the one
/// that was given, or else the one that is guessed from the path.
pub proof fn law_description_is_that_of_the_report(
    artifact: ArtifactMetric,
    report: FileReport,
    size_bytes: u64,
)
    requires
        is_description(artifact, report, size_bytes),
    ensures
        artifact.name@ == report.name@,
        artifact.step == report.step,
        artifact.timestamp_unix_ms == report.timestamp_unix_ms,
        artifact.size_bytes == size_bytes,
        report.content_type matches Some(given) ==> artifact.content_type@ == given@,
        report.content_type is None ==> artifact.content_type@ == guessed_type(report.path@),
{
}

} // verus!
