//! The I/O capability and the record of what it answered.
//!
//! The engine reaches files only through a value that implements
//! [`ReadsFiles`]. Nothing is assumed of such a value. The engine holds it
//! inside a [`Traced`], which notes every call and its answer in a ghost
//! log. Contracts then say what the engine returns in every course of the
//! outside ([`World`]) that gives the answers that were given; there
//! always is one.

use vstd::prelude::*;
use crate::pipes::{HostPipe, PipeMap};
use crate::template::TemplateElement;
use crate::text::texts;
use crate::yaml::{Document, YamlFileError, YamlFileFailure, YamlValue};

verus! {

/// What can go wrong with a file.
#[derive(Debug, PartialEq, Eq)]
pub enum FileError {
    FileNotFound(String),
    FileCantBeRead(String),
    FileCantBeWritten(String),
    FilesCantBeCopied(String),
    CantCopyDirIntoFile(String, String),
    TemplateFileFailedParsing(String, String),
}

/// A [`FileError`] as a mathematical value.
pub enum FileFailure {
    FileNotFound(Seq<char>),
    FileCantBeRead(Seq<char>),
    FileCantBeWritten(Seq<char>),
    FilesCantBeCopied(Seq<char>),
    CantCopyDirIntoFile(Seq<char>, Seq<char>),
    TemplateFileFailedParsing(Seq<char>, Seq<char>),
}

impl View for FileError {
    type V = FileFailure;

    open spec fn view(&self) -> FileFailure {
        match self {
            FileError::FileNotFound(a) => FileFailure::FileNotFound(a@),
            FileError::FileCantBeRead(a) => FileFailure::FileCantBeRead(a@),
            FileError::FileCantBeWritten(a) => FileFailure::FileCantBeWritten(a@),
            FileError::FilesCantBeCopied(a) => FileFailure::FilesCantBeCopied(a@),
            FileError::CantCopyDirIntoFile(a, b) => FileFailure::CantCopyDirIntoFile(a@, b@),
            FileError::TemplateFileFailedParsing(a, b) => FileFailure::TemplateFileFailedParsing(
                a@,
                b@,
            ),
        }
    }
}

impl FileFailure {
    /// The message that names the failure.
    pub open spec fn message(self) -> Seq<char> {
        match self {
            FileFailure::FileNotFound(a) => "Can't find the file "@ + a,
            FileFailure::FileCantBeRead(a) => "Can't read the file "@ + a,
            FileFailure::FileCantBeWritten(a) => "Can't write to the file "@ + a,
            FileFailure::FilesCantBeCopied(a) => "Can't copy the files at "@ + a,
            FileFailure::CantCopyDirIntoFile(a, b) => "Can't copy "@ + a + " into "@ + b
                + " as its a file"@,
            FileFailure::TemplateFileFailedParsing(a, b) => "Couldn't parse "@ + a
                + " into templating:\n"@ + b,
        }
    }
}

impl FileError {
    /// The message that names the error.
    pub fn to_string(&self) -> (r: String)
        ensures
            r@ == self@.message(),
    {
        match self {
            FileError::FileNotFound(a) => {
                let mut r: String = "Can't find the file ".to_owned();
                r.append(a.as_str());
                r
            },
            FileError::FileCantBeRead(a) => {
                let mut r: String = "Can't read the file ".to_owned();
                r.append(a.as_str());
                r
            },
            FileError::FileCantBeWritten(a) => {
                let mut r: String = "Can't write to the file ".to_owned();
                r.append(a.as_str());
                r
            },
            FileError::FilesCantBeCopied(a) => {
                let mut r: String = "Can't copy the files at ".to_owned();
                r.append(a.as_str());
                r
            },
            FileError::CantCopyDirIntoFile(a, b) => {
                let mut r: String = "Can't copy ".to_owned();
                r.append(a.as_str());
                r.append(" into ");
                r.append(b.as_str());
                r.append(" as its a file");
                r
            },
            FileError::TemplateFileFailedParsing(a, b) => {
                let mut r: String = "Couldn't parse ".to_owned();
                r.append(a.as_str());
                r.append(" into templating:\n");
                r.append(b.as_str());
                r
            },
        }
    }
}

/// What was made of a file, with the time at which it was made.
pub struct Stamped<T> {
    pub name: String,
    pub stamp: u128,
    pub value: T,
}

/// What was made of files, by file name: texts that were read, or
/// documents and templates that were parsed. An entry is valid until its
/// file is modified after the entry was made.
pub struct StampedCache<T> {
    pub entries: Vec<Stamped<T>>,
}

/// The index of the first of `entries`, at or after `from`, that is made
/// of the file `name`.
pub open spec fn stamped_index<T>(entries: Seq<Stamped<T>>, name: Seq<char>, from: int) -> Option<int>
    decreases entries.len() - from,
{
    if from < 0 || from >= entries.len() {
        None
    } else if entries[from].name@ == name {
        Some(from)
    } else {
        stamped_index(entries, name, from + 1)
    }
}

/// Whether an entry made at `stamp` is still valid for a file that was
/// modified at `file_time`.
pub open spec fn is_fresh(stamp: u128, file_time: u128) -> bool {
    file_time <= stamp
}

impl<T> StampedCache<T> {
    /// A cache without entries.
    pub fn new() -> (r: Self)
        ensures
            r.entries@.len() == 0,
    {
        StampedCache { entries: Vec::new() }
    }

    /// The place of the entry made of the file `name`.
    fn position(&self, name: &str) -> (r: Option<usize>)
        ensures
            match r {
                Some(i) => stamped_index(self.entries@, name@, 0) == Some(i as int) && i
                    < self.entries.len(),
                None => stamped_index(self.entries@, name@, 0) is None,
            },
    {
        let wanted: String = name.to_owned();
        let mut i: usize = 0;
        while i < self.entries.len()
            invariant
                i <= self.entries.len(),
                wanted@ == name@,
                stamped_index(self.entries@, name@, 0) == stamped_index(
                    self.entries@,
                    name@,
                    i as int,
                ),
            decreases self.entries.len() - i,
        {
            if self.entries[i].name == wanted {
                return Some(i);
            }
            i += 1;
        }
        None
    }

    /// What was made of the file `name`, where that is still valid for a
    /// file modified at `file_time`.
    pub fn fresh(&self, name: &str, file_time: u128) -> (r: Option<&T>)
        ensures
            match stamped_index(self.entries@, name@, 0) {
                Some(i) => if is_fresh(self.entries@[i].stamp, file_time) {
                    r == Some(&self.entries@[i].value)
                } else {
                    r is None
                },
                None => r is None,
            },
    {
        match self.position(name) {
            Some(i) => if file_time <= self.entries[i].stamp {
                Some(&self.entries[i].value)
            } else {
                None
            },
            None => None,
        }
    }

    /// Notes that `value` was made of the file `name` at `stamp`, in
    /// place of what was made of it before.
    pub fn store(&mut self, name: String, stamp: u128, value: T)
        ensures
            match stamped_index(old(self).entries@, name@, 0) {
                Some(i) => final(self).entries@ == old(self).entries@.update(
                    i,
                    Stamped { name, stamp, value },
                ),
                None => final(self).entries@ == old(self).entries@.push(
                    Stamped { name, stamp, value },
                ),
            },
    {
        match self.position(name.as_str()) {
            Some(i) => {
                self.entries.set(i, Stamped { name, stamp, value });
            },
            None => {
                self.entries.push(Stamped { name, stamp, value });
            },
        }
    }
}

/// The I/O capability: what the engine asks of the outside.
pub trait ReadsFiles {
    /// The text of the file `filename`.
    fn read(&mut self, filename: &str) -> Result<String, FileError>;

    /// When `filename` was last modified, in milliseconds since the epoch,
    /// if that can be told.
    fn modify_time(&self, filename: &str) -> Option<u128>;

    /// Writes `contents` to the file `filename`.
    fn write(&mut self, filename: &str, contents: &str) -> Result<(), FileError>;

    /// The file `filename` read as a document.
    fn read_yaml(&mut self, filename: &str) -> Result<YamlValue, YamlFileError>;

    /// The file `filename` read as a template.
    fn read_template(&mut self, filename: &str) -> Result<Vec<TemplateElement>, FileError>;

    /// Copies the file or directory `from` to `to`.
    fn copy_files(&self, from: &str, to: &str) -> Result<(), FileError>;
}

/// A read-only handle on an I/O capability, as handed to host pipes.
pub struct ReadsFilesImpl<'a, R: ReadsFiles> {
    device: &'a mut R,
}

impl<'a, R: ReadsFiles> ReadsFilesImpl<'a, R> {
    /// The text of the file `filename`, as the capability gives it.
    pub fn read(&mut self, filename: &str) -> Result<String, FileError> {
        self.device.read(filename)
    }
}

/// One call of the capability, or of a host pipe, with its answer.
#[allow(inconsistent_fields)]
pub enum Event {
    Read { path: Seq<char>, answer: Result<Seq<char>, FileFailure> },
    ModifyTime { path: Seq<char>, answer: Option<u128> },
    Write { path: Seq<char>, contents: Seq<char>, answer: Result<(), FileFailure> },
    ReadYaml { path: Seq<char>, answer: Result<Document, YamlFileFailure> },
    Copy { from: Seq<char>, to: Seq<char>, answer: Result<(), FileFailure> },
    Host {
        name: Seq<char>,
        value: Document,
        params: Seq<Seq<char>>,
        answer: Result<Document, Seq<char>>,
    },
}

/// A course of the outside: what each call is answered with, by the
/// number of calls that were made before it.
pub struct World {
    pub read: spec_fn(nat, Seq<char>) -> Result<Seq<char>, FileFailure>,
    pub modify_time: spec_fn(nat, Seq<char>) -> Option<u128>,
    pub write: spec_fn(nat, Seq<char>, Seq<char>) -> Result<(), FileFailure>,
    pub read_yaml: spec_fn(nat, Seq<char>) -> Result<Document, YamlFileFailure>,
    pub copy: spec_fn(nat, Seq<char>, Seq<char>) -> Result<(), FileFailure>,
    pub host: spec_fn(nat, Seq<char>, Document, Seq<Seq<char>>) -> Result<Document, Seq<char>>,
}

/// Whether the answer noted in `e` is the one that `w` gives to that call
/// after `at` calls.
pub open spec fn agrees(e: Event, at: nat, w: World) -> bool {
    match e {
        Event::Read { path, answer } => (w.read)(at, path) == answer,
        Event::ModifyTime { path, answer } => (w.modify_time)(at, path) == answer,
        Event::Write { path, contents, answer } => (w.write)(at, path, contents) == answer,
        Event::ReadYaml { path, answer } => (w.read_yaml)(at, path) == answer,
        Event::Copy { from, to, answer } => (w.copy)(at, from, to) == answer,
        Event::Host { name, value, params, answer } => (w.host)(at, name, value, params) == answer,
    }
}

/// Whether every answer in `log` is the one that `w` gives at its place.
pub open spec fn consistent(log: Seq<Event>, w: World) -> bool {
    forall|i: int| 0 <= i < log.len() ==> agrees(#[trigger] log[i], i as nat, w)
}

/// The course of the outside that `log` notes: each call that `log`
/// holds is answered as it was.
pub open spec fn world_of(log: Seq<Event>) -> World {
    World {
        read: |at: nat, path: Seq<char>|
            if at < log.len() && log[at as int] is Read {
                log[at as int]->Read_answer
            } else {
                Err(FileFailure::FileNotFound(path))
            },
        modify_time: |at: nat, path: Seq<char>|
            if at < log.len() && log[at as int] is ModifyTime {
                log[at as int]->ModifyTime_answer
            } else {
                None
            },
        write: |at: nat, path: Seq<char>, contents: Seq<char>|
            if at < log.len() && log[at as int] is Write {
                log[at as int]->Write_answer
            } else {
                Err(FileFailure::FileCantBeWritten(path))
            },
        read_yaml: |at: nat, path: Seq<char>|
            if at < log.len() && log[at as int] is ReadYaml {
                log[at as int]->ReadYaml_answer
            } else {
                Err(YamlFileFailure::File(FileFailure::FileNotFound(path)))
            },
        copy: |at: nat, from: Seq<char>, to: Seq<char>|
            if at < log.len() && log[at as int] is Copy {
                log[at as int]->Copy_answer
            } else {
                Err(FileFailure::FilesCantBeCopied(from))
            },
        host: |at: nat, name: Seq<char>, value: Document, params: Seq<Seq<char>>|
            if at < log.len() && log[at as int] is Host {
                log[at as int]->Host_answer
            } else {
                Err(name)
            },
    }
}

/// Whatever the outside answered, some course of the outside gives
/// those answers: what is said of every course that agrees with a log is
/// said of what happened.
pub proof fn law_every_log_has_a_world(log: Seq<Event>)
    ensures
        consistent(log, world_of(log)),
{
}

/// Whether `log` starts with `earlier`.
pub open spec fn extends(log: Seq<Event>, earlier: Seq<Event>) -> bool {
    earlier.len() <= log.len() && forall|i: int|
        0 <= i < earlier.len() ==> log[i] == #[trigger] earlier[i]
}

/// A world that agrees with a log agrees with every log that it extends.
pub proof fn lemma_consistent_earlier(log: Seq<Event>, earlier: Seq<Event>, w: World)
    requires
        extends(log, earlier),
        consistent(log, w),
    ensures
        consistent(earlier, w),
{
    assert forall|i: int| 0 <= i < earlier.len() implies agrees(
        #[trigger] earlier[i],
        i as nat,
        w,
    ) by {
        assert(agrees(log[i], i as nat, w));
    }
}

/// Extension of logs is transitive.
pub proof fn lemma_extends_trans(a: Seq<Event>, b: Seq<Event>, c: Seq<Event>)
    requires
        extends(b, a),
        extends(c, b),
    ensures
        extends(c, a),
{
    assert forall|i: int| 0 <= i < a.len() implies c[i] == #[trigger] a[i] by {
        assert(b[i] == a[i]);
        assert(c[i] == b[i]);
    }
}

/// Whether the calls noted in `log` from index `from` on only ask for
/// times.
pub open spec fn only_asks_times(log: Seq<Event>, from: int) -> bool {
    forall|i: int| from <= i < log.len() ==> #[trigger] log[i] is ModifyTime
}

/// Whether the calls noted in `log` from index `from` on only ask for
/// times and read: no pipe of the host runs, and nothing is written.
pub open spec fn only_reads(log: Seq<Event>, from: int) -> bool {
    forall|i: int| from <= i < log.len() ==> #[trigger] log[i] is ModifyTime || log[i] is Read
}

/// A log that grew by one event extends the log before, and a world that
/// agrees with it gives that event's answer at the event's place.
pub proof fn lemma_pushed(log: Seq<Event>, e: Event)
    ensures
        extends(log.push(e), log),
        forall|w: World| #[trigger] consistent(log.push(e), w) ==> agrees(e, log.len(), w),
{
    assert forall|w: World| #[trigger] consistent(log.push(e), w) implies agrees(
        e,
        log.len(),
        w,
    ) by {
        assert(log.push(e)[log.len() as int] == e);
    }
}

/// An I/O capability together with the log of its answers.
pub struct Traced<R: ReadsFiles> {
    device: R,
    log: Ghost<Seq<Event>>,
}

/// The view of a read's answer.
pub open spec fn read_answer(r: Result<String, FileError>) -> Result<Seq<char>, FileFailure> {
    match r {
        Ok(s) => Ok(s@),
        Err(e) => Err(e@),
    }
}

/// The view of a write's answer.
pub open spec fn write_answer(r: Result<(), FileError>) -> Result<(), FileFailure> {
    match r {
        Ok(u) => Ok(()),
        Err(e) => Err(e@),
    }
}

/// The view of a document read's answer.
pub open spec fn yaml_answer(r: Result<YamlValue, YamlFileError>) -> Result<
    Document,
    YamlFileFailure,
> {
    match r {
        Ok(v) => Ok(v@),
        Err(e) => Err(e@),
    }
}

/// The view of a host pipe's answer.
pub open spec fn host_answer(r: Result<YamlValue, String>) -> Result<Document, Seq<char>> {
    match r {
        Ok(v) => Ok(v@),
        Err(e) => Err(e@),
    }
}

impl<R: ReadsFiles> Traced<R> {
    /// The calls made so far, with their answers.
    pub closed spec fn log(&self) -> Seq<Event> {
        self.log@
    }

    /// The capability that is held.
    pub closed spec fn capability(&self) -> R {
        self.device
    }

    /// Wraps `device` with an empty log.
    pub fn new(device: R) -> (r: Self)
        ensures
            r.log() == Seq::<Event>::empty(),
            r.capability() == device,
    {
        Traced { device, log: Ghost(Seq::empty()) }
    }

    /// The capability itself.
    pub fn device(&self) -> (r: &R)
        ensures
            *r == self.capability(),
    {
        &self.device
    }

    /// Gives the capability back.
    pub fn into_device(self) -> (r: R)
        ensures
            r == self.capability(),
    {
        self.device
    }

    /// Reads `filename` and notes the answer.
    pub fn read(&mut self, filename: &str) -> (r: Result<String, FileError>)
        ensures
            final(self).log() == old(self).log().push(
                Event::Read { path: filename@, answer: read_answer(r) },
            ),
            extends(final(self).log(), old(self).log()),
            forall|w: World| #[trigger]
                consistent(final(self).log(), w) ==> (w.read)(old(self).log().len(), filename@)
                    == read_answer(r),
    {
        let r = self.device.read(filename);
        proof {
            lemma_pushed(self.log@, Event::Read { path: filename@, answer: read_answer(r) });
            self.log@ = self.log@.push(Event::Read { path: filename@, answer: read_answer(r) });
        }
        r
    }

    /// Asks when `filename` was modified and notes the answer.
    pub fn modify_time(&mut self, filename: &str) -> (r: Option<u128>)
        ensures
            final(self).log() == old(self).log().push(
                Event::ModifyTime { path: filename@, answer: r },
            ),
            extends(final(self).log(), old(self).log()),
            forall|w: World| #[trigger]
                consistent(final(self).log(), w) ==> (w.modify_time)(
                    old(self).log().len(),
                    filename@,
                ) == r,
    {
        let r = self.device.modify_time(filename);
        proof {
            lemma_pushed(self.log@, Event::ModifyTime { path: filename@, answer: r });
            self.log@ = self.log@.push(Event::ModifyTime { path: filename@, answer: r });
        }
        r
    }

    /// Writes `contents` to `filename` and notes the answer.
    pub fn write(&mut self, filename: &str, contents: &str) -> (r: Result<(), FileError>)
        ensures
            final(self).log() == old(self).log().push(
                Event::Write { path: filename@, contents: contents@, answer: write_answer(r) },
            ),
            extends(final(self).log(), old(self).log()),
            forall|w: World| #[trigger]
                consistent(final(self).log(), w) ==> (w.write)(
                    old(self).log().len(),
                    filename@,
                    contents@,
                ) == write_answer(r),
    {
        let r = self.device.write(filename, contents);
        proof {
            lemma_pushed(
                self.log@,
                Event::Write { path: filename@, contents: contents@, answer: write_answer(r) },
            );
            self.log@ = self.log@.push(
                Event::Write { path: filename@, contents: contents@, answer: write_answer(r) },
            );
        }
        r
    }

    /// Reads `filename` as a document and notes the answer.
    pub fn read_yaml(&mut self, filename: &str) -> (r: Result<YamlValue, YamlFileError>)
        ensures
            final(self).log() == old(self).log().push(
                Event::ReadYaml { path: filename@, answer: yaml_answer(r) },
            ),
            extends(final(self).log(), old(self).log()),
            forall|w: World| #[trigger]
                consistent(final(self).log(), w) ==> (w.read_yaml)(
                    old(self).log().len(),
                    filename@,
                ) == yaml_answer(r),
    {
        let r = self.device.read_yaml(filename);
        proof {
            lemma_pushed(self.log@, Event::ReadYaml { path: filename@, answer: yaml_answer(r) });
            self.log@ = self.log@.push(
                Event::ReadYaml { path: filename@, answer: yaml_answer(r) },
            );
        }
        r
    }

    /// Copies `from` to `to` and notes the answer.
    pub fn copy_files(&mut self, from: &str, to: &str) -> (r: Result<(), FileError>)
        ensures
            final(self).log() == old(self).log().push(
                Event::Copy { from: from@, to: to@, answer: write_answer(r) },
            ),
            extends(final(self).log(), old(self).log()),
            forall|w: World| #[trigger]
                consistent(final(self).log(), w) ==> (w.copy)(old(self).log().len(), from@, to@)
                    == write_answer(r),
    {
        let r = self.device.copy_files(from, to);
        proof {
            lemma_pushed(self.log@, Event::Copy { from: from@, to: to@, answer: write_answer(r) });
            self.log@ = self.log@.push(
                Event::Copy { from: from@, to: to@, answer: write_answer(r) },
            );
        }
        r
    }

    /// Runs the host pipe `host`, registered under `name`, on `value`,
    /// and notes the answer.
    pub fn call_host<H: HostPipe>(
        &mut self,
        host: &H,
        name: &str,
        value: &YamlValue,
        params: &Vec<String>,
        pipes: &PipeMap<H>,
    ) -> (r: Result<YamlValue, String>)
        ensures
            final(self).log() == old(self).log().push(
                Event::Host {
                    name: name@,
                    value: value@,
                    params: texts(params@),
                    answer: host_answer(r),
                },
            ),
            extends(final(self).log(), old(self).log()),
            forall|w: World| #[trigger]
                consistent(final(self).log(), w) ==> (w.host)(
                    old(self).log().len(),
                    name@,
                    value@,
                    texts(params@),
                ) == host_answer(r),
    {
        let mut handle = ReadsFilesImpl { device: &mut self.device };
        let r = host.run(value, params, pipes, &mut handle);
        proof {
            lemma_pushed(
                self.log@,
                Event::Host {
                    name: name@,
                    value: value@,
                    params: texts(params@),
                    answer: host_answer(r),
                },
            );
            self.log@ = self.log@.push(
                Event::Host {
                    name: name@,
                    value: value@,
                    params: texts(params@),
                    answer: host_answer(r),
                },
            );
        }
        r
    }
}

} // verus!
