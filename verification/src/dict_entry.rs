//! The entry collector: pairs the audio and transcript files of a directory
//! walk by their stems and reports the pairs that are complete.
//!
//! Walking and reading are the caller's part. The collector takes each file as
//! plain values, in the order of the walk, and decides what becomes of it.

use vstd::prelude::*;
use vstd::string::*;
use crate::decode::decode_transcript;
use crate::decode::transcript_text;
use crate::text::lowercase;
use crate::text::same_text;
use crate::text::views;

verus! {

/// One audio/transcript pair found on disk.
#[derive(Debug)]
pub struct DictEntry {
    /// The stem that the two files share.
    pub name: String,
    /// The decoded text of the transcript file.
    pub transcript: String,
    pub containing_dir: String,
    pub audio_path: String,
    pub transcript_path: String,
}

/// What a `DictEntry` is, as a mathematical value.
pub ghost struct DictEntryView {
    pub name: Seq<char>,
    pub transcript: Seq<char>,
    pub containing_dir: Seq<char>,
    pub audio_path: Seq<char>,
    pub transcript_path: Seq<char>,
}

impl View for DictEntry {
    type V = DictEntryView;

    open spec fn view(&self) -> DictEntryView {
        DictEntryView {
            name: self.name@,
            transcript: self.transcript@,
            containing_dir: self.containing_dir@,
            audio_path: self.audio_path@,
            transcript_path: self.transcript_path@,
        }
    }
}

impl Clone for DictEntry {
    fn clone(&self) -> (entry: DictEntry)
        ensures
            entry@ == self@,
    {
        DictEntry {
            name: self.name.clone(),
            transcript: self.transcript.clone(),
            containing_dir: self.containing_dir.clone(),
            audio_path: self.audio_path.clone(),
            transcript_path: self.transcript_path.clone(),
        }
    }
}

/// The entry with nothing recorded yet.
pub open spec fn empty_entry() -> DictEntryView {
    DictEntryView {
        name: Seq::empty(),
        transcript: Seq::empty(),
        containing_dir: Seq::empty(),
        audio_path: Seq::empty(),
        transcript_path: Seq::empty(),
    }
}

/// An entry is complete when none of its five fields is empty.
pub open spec fn complete(entry: DictEntryView) -> bool {
    &&& entry.name.len() > 0
    &&& entry.transcript.len() > 0
    &&& entry.containing_dir.len() > 0
    &&& entry.audio_path.len() > 0
    &&& entry.transcript_path.len() > 0
}

/// A file met during the walk.
#[derive(Debug)]
pub struct ScannedFile {
    pub path: String,
    /// The file name without its extension.
    pub stem: String,
    /// The extension without its dot; empty if the file has none.
    pub extension: String,
    /// The directory that holds the file.
    pub parent: String,
    /// What reading the file gave: its bytes, or the description of the
    /// failure. The collector looks at it for transcript files only.
    pub contents: Result<Vec<u8>, String>,
}

/// What a `ScannedFile` is, as a mathematical value.
pub ghost struct ScannedFileView {
    pub path: Seq<char>,
    pub stem: Seq<char>,
    pub extension: Seq<char>,
    pub parent: Seq<char>,
    pub contents: Result<Seq<u8>, Seq<char>>,
}

impl View for ScannedFile {
    type V = ScannedFileView;

    open spec fn view(&self) -> ScannedFileView {
        ScannedFileView {
            path: self.path@,
            stem: self.stem@,
            extension: self.extension@,
            parent: self.parent@,
            contents: match self.contents {
                Ok(bytes) => Ok(bytes@),
                Err(cause) => Err(cause@),
            },
        }
    }
}

/// What a file is to the collector, by its extension.
#[derive(Clone, Copy, Debug, PartialEq, Eq, Structural)]
pub enum FileKind {
    Audio,
    Transcript,
    Unknown,
}

/// The kind of a file with the extension `extension`: the extension is
/// compared in lower case, and the audio extensions are asked first.
pub open spec fn kind_of(
    extension: Seq<char>,
    audio_exts: Seq<Seq<char>>,
    text_exts: Seq<Seq<char>>,
) -> FileKind {
    if audio_exts.contains(lowercase(extension)) {
        FileKind::Audio
    } else if text_exts.contains(lowercase(extension)) {
        FileKind::Transcript
    } else {
        FileKind::Unknown
    }
}

/// The message of the error that two files of one kind and one stem raise.
pub open spec fn collision_message(first: Seq<char>, second: Seq<char>) -> Seq<char> {
    "Naming collision: \""@ + first + "\" vs \""@ + second + "\"!"@
}

/// The place of the entry named `stem` among `entries`, or their number if
/// none has that name.
pub open spec fn position(entries: Seq<DictEntryView>, stem: Seq<char>) -> int
    decreases entries.len(),
{
    if entries.len() == 0 || entries[0].name == stem {
        0
    } else {
        1 + position(entries.skip(1), stem)
    }
}

/// `entries` with `entry` at the place `at`, in place of what was there.
pub open spec fn stored(entries: Seq<DictEntryView>, at: int, entry: DictEntryView) -> Seq<
    DictEntryView,
> {
    if 0 <= at < entries.len() {
        entries.update(at, entry)
    } else {
        entries.push(entry)
    }
}

/// `entries` without the one at the place `at`, if there is one.
pub open spec fn discarded(entries: Seq<DictEntryView>, at: int) -> Seq<DictEntryView> {
    if 0 <= at < entries.len() {
        entries.remove(at)
    } else {
        entries
    }
}

/// The entries after `file` was visited, or the message of the error that
/// ends the collection.
///
/// The file's entry is the one of its stem, a new one if there is none yet. It
/// takes the file's stem and directory. An audio file gives it its audio path
/// and a transcript file its transcript path and text, unless the entry has
/// one already, which is a naming collision. A file of neither kind discards
/// the entry with all it held.
pub open spec fn visited(
    entries: Seq<DictEntryView>,
    file: ScannedFileView,
    audio_exts: Seq<Seq<char>>,
    text_exts: Seq<Seq<char>>,
) -> Result<Seq<DictEntryView>, Seq<char>> {
    let at = position(entries, file.stem);
    let found = if at < entries.len() {
        entries[at]
    } else {
        empty_entry()
    };
    let entry = DictEntryView { name: file.stem, containing_dir: file.parent, ..found };
    match kind_of(file.extension, audio_exts, text_exts) {
        FileKind::Audio => if entry.audio_path.len() > 0 {
            Err(collision_message(entry.audio_path, file.path))
        } else {
            Ok(stored(entries, at, DictEntryView { audio_path: file.path, ..entry }))
        },
        FileKind::Transcript => if entry.transcript_path.len() > 0 {
            Err(collision_message(entry.transcript_path, file.path))
        } else {
            match file.contents {
                Err(cause) => Err(cause),
                Ok(bytes) => match transcript_text(bytes) {
                    Err(message) => Err(message),
                    Ok(text) => Ok(
                        stored(
                            entries,
                            at,
                            DictEntryView { transcript_path: file.path, transcript: text, ..entry },
                        ),
                    ),
                },
            }
        },
        FileKind::Unknown => Ok(discarded(entries, at)),
    }
}

/// The entries after the `files` were visited in order, or the message of the
/// first error.
pub open spec fn collected(
    files: Seq<ScannedFileView>,
    audio_exts: Seq<Seq<char>>,
    text_exts: Seq<Seq<char>>,
) -> Result<Seq<DictEntryView>, Seq<char>>
    decreases files.len(),
{
    if files.len() == 0 {
        Ok(Seq::empty())
    } else {
        match collected(files.drop_last(), audio_exts, text_exts) {
            Err(message) => Err(message),
            Ok(entries) => visited(entries, files.last(), audio_exts, text_exts),
        }
    }
}

/// The complete ones among `entries`, in order.
pub open spec fn complete_entries(entries: Seq<DictEntryView>) -> Seq<DictEntryView> {
    entries.filter(|entry: DictEntryView| complete(entry))
}

/// The collector reports an entry exactly if it gathered it and the entry is
/// complete: every reported entry has its five fields, and no entry that
/// lacks one is reported.
pub proof fn lemma_exactly_the_complete_entries_remain(
    entries: Seq<DictEntryView>,
    entry: DictEntryView,
)
    ensures
        complete_entries(entries).contains(entry) <==> entries.contains(entry) && complete(entry),
    decreases entries.len(),
{
    reveal(Seq::filter);
    if entries.len() > 0 {
        let rest = entries.drop_last();
        lemma_exactly_the_complete_entries_remain(rest, entry);
        let kept = complete_entries(rest);
        if complete(entries.last()) {
            assert(complete_entries(entries) == kept.push(entries.last()));
            assert(kept.push(entries.last()).last() == entries.last());
            if kept.contains(entry) {
                let j = choose|j: int| 0 <= j < kept.len() && kept[j] == entry;
                assert(kept.push(entries.last())[j] == entry);
            }
        } else {
            assert(complete_entries(entries) == kept);
        }
        if entries.contains(entry) {
            let j = choose|j: int| 0 <= j < entries.len() && entries[j] == entry;
            if j < rest.len() {
                assert(rest[j] == entry);
            }
        }
        if rest.contains(entry) {
            let j = choose|j: int| 0 <= j < rest.len() && rest[j] == entry;
            assert(entries[j] == entry);
        }
    }
}

/// Where `position` points: at the first entry of that name, or behind the
/// last entry if there is none.
pub proof fn lemma_position(entries: Seq<DictEntryView>, stem: Seq<char>)
    ensures
        0 <= position(entries, stem) <= entries.len(),
        position(entries, stem) < entries.len() ==> entries[position(entries, stem)].name == stem,
        forall|j: int| 0 <= j < position(entries, stem) ==> (#[trigger] entries[j]).name != stem,
    decreases entries.len(),
{
    if entries.len() > 0 && entries[0].name != stem {
        lemma_position(entries.skip(1), stem);
        assert forall|j: int| 0 <= j < position(entries, stem) implies (#[trigger] entries[j]).name
            != stem by {
            if j > 0 {
                assert(entries[j] == entries.skip(1)[j - 1]);
            }
        }
    }
}

/// The place `at` is the position of `stem` if no entry before it has that
/// name and the entry there, if any, has it.
pub proof fn lemma_position_is(entries: Seq<DictEntryView>, stem: Seq<char>, at: int)
    requires
        0 <= at <= entries.len(),
        forall|j: int| 0 <= j < at ==> (#[trigger] entries[j]).name != stem,
        at < entries.len() ==> entries[at].name == stem,
    ensures
        position(entries, stem) == at,
{
    lemma_position(entries, stem);
}

/// Whether no two of `entries` share a name.
pub open spec fn has_distinct_names(entries: Seq<DictEntryView>) -> bool {
    forall|i: int, j: int|
        0 <= i < j < entries.len() ==> (#[trigger] entries[i]).name != (#[trigger] entries[j]).name
}

/// A visit keeps the entries keyed by their stems: if no two entries share
/// a name before it, none do after it.
pub proof fn lemma_visit_keeps_names_distinct(
    entries: Seq<DictEntryView>,
    file: ScannedFileView,
    audio_exts: Seq<Seq<char>>,
    text_exts: Seq<Seq<char>>,
)
    requires
        has_distinct_names(entries),
        visited(entries, file, audio_exts, text_exts) is Ok,
    ensures
        has_distinct_names(visited(entries, file, audio_exts, text_exts)->Ok_0),
{
    let at = position(entries, file.stem);
    let after = visited(entries, file, audio_exts, text_exts)->Ok_0;
    lemma_position(entries, file.stem);
    assert forall|i: int, j: int| 0 <= i < j < after.len() implies (#[trigger] after[i]).name != (
    #[trigger] after[j]).name by {
        if kind_of(file.extension, audio_exts, text_exts) is Unknown {
            if at < entries.len() {
                let a = if i < at {
                    i
                } else {
                    i + 1
                };
                let b = if j < at {
                    j
                } else {
                    j + 1
                };
                assert(after[i] == entries[a] && after[j] == entries[b]);
            }
        } else if at < entries.len() {
            assert(after[i].name == entries[i].name && after[j].name == entries[j].name);
        } else {
            if j < entries.len() {
                assert(after[i] == entries[i] && after[j] == entries[j]);
            } else {
                assert(after[i] == entries[i]);
                assert(after[j].name == file.stem);
            }
        }
    }
}

/// The entries of a collection are keyed by their stems: no two of them
/// share a name.
pub proof fn lemma_collected_names_are_distinct(
    files: Seq<ScannedFileView>,
    audio_exts: Seq<Seq<char>>,
    text_exts: Seq<Seq<char>>,
)
    requires
        collected(files, audio_exts, text_exts) is Ok,
    ensures
        has_distinct_names(collected(files, audio_exts, text_exts)->Ok_0),
    decreases files.len(),
{
    if files.len() > 0 {
        lemma_collected_names_are_distinct(files.drop_last(), audio_exts, text_exts);
        lemma_visit_keeps_names_distinct(
            collected(files.drop_last(), audio_exts, text_exts)->Ok_0,
            files.last(),
            audio_exts,
            text_exts,
        );
    }
}

/// Two audio files of one stem collide: once the first is recorded, visiting
/// the second ends the collection with the collision of their two paths.
pub proof fn lemma_second_audio_file_collides(
    entries: Seq<DictEntryView>,
    first: ScannedFileView,
    second: ScannedFileView,
    audio_exts: Seq<Seq<char>>,
    text_exts: Seq<Seq<char>>,
)
    requires
        kind_of(first.extension, audio_exts, text_exts) is Audio,
        kind_of(second.extension, audio_exts, text_exts) is Audio,
        first.stem == second.stem,
        first.path.len() > 0,
        visited(entries, first, audio_exts, text_exts) is Ok,
    ensures
        visited(visited(entries, first, audio_exts, text_exts)->Ok_0, second, audio_exts, text_exts)
            == Err::<Seq<DictEntryView>, Seq<char>>(collision_message(first.path, second.path)),
{
    let at = position(entries, first.stem);
    let after = visited(entries, first, audio_exts, text_exts)->Ok_0;
    lemma_position(entries, first.stem);
    lemma_position_is(after, first.stem, at);
}

/// Two transcript files of one stem collide in the same way.
pub proof fn lemma_second_transcript_file_collides(
    entries: Seq<DictEntryView>,
    first: ScannedFileView,
    second: ScannedFileView,
    audio_exts: Seq<Seq<char>>,
    text_exts: Seq<Seq<char>>,
)
    requires
        kind_of(first.extension, audio_exts, text_exts) is Transcript,
        kind_of(second.extension, audio_exts, text_exts) is Transcript,
        first.stem == second.stem,
        first.path.len() > 0,
        visited(entries, first, audio_exts, text_exts) is Ok,
    ensures
        visited(visited(entries, first, audio_exts, text_exts)->Ok_0, second, audio_exts, text_exts)
            == Err::<Seq<DictEntryView>, Seq<char>>(collision_message(first.path, second.path)),
{
    let at = position(entries, first.stem);
    let after = visited(entries, first, audio_exts, text_exts)->Ok_0;
    lemma_position(entries, first.stem);
    lemma_position_is(after, first.stem, at);
}

/// Whether `list` holds `text`.
fn listed(list: &Vec<String>, text: &str) -> (b: bool)
    ensures
        b == views(list@).contains(text@),
{
    let mut i: usize = 0;
    while i < list.len()
        invariant
            i <= list.len(),
            forall|j: int| 0 <= j < i ==> views(list@)[j] != text@,
        decreases list.len() - i,
    {
        if same_text(list[i].as_str(), text) {
            assert(views(list@)[i as int] == text@);
            return true;
        }
        i += 1;
    }
    false
}

fn collision(first: &str, second: &str) -> (message: String)
    ensures
        message@ == collision_message(first@, second@),
{
    let mut message = "Naming collision: \"".to_owned();
    message.append(first);
    message.append("\" vs \"");
    message.append(second);
    message.append("\"!");
    message
}

impl DictEntry {
    /// An entry with nothing recorded yet.
    pub fn new_empty() -> (entry: DictEntry)
        ensures
            entry@ == empty_entry(),
    {
        DictEntry {
            name: String::new(),
            transcript: String::new(),
            containing_dir: String::new(),
            audio_path: String::new(),
            transcript_path: String::new(),
        }
    }

    /// Whether one of the five fields is still empty.
    pub fn is_incomplete(&self) -> (b: bool)
        ensures
            b == !complete(self@),
    {
        self.name.as_str().is_empty() || self.transcript.as_str().is_empty()
            || self.containing_dir.as_str().is_empty() || self.audio_path.as_str().is_empty()
            || self.transcript_path.as_str().is_empty()
    }

    /// Pairs the `files` of a walk, visited in order, and returns the
    /// complete entries in the order in which their stems first appeared. The
    /// first naming collision, unreadable or undecodable transcript ends the
    /// collection with its message.
    pub fn collect_entries(
        files: &Vec<ScannedFile>,
        audio_exts: &Vec<String>,
        text_exts: &Vec<String>,
    ) -> (r: Result<Vec<DictEntry>, String>)
        ensures
            match r {
                Ok(entries) => {
                    &&& collected(views(files@), views(audio_exts@), views(text_exts@)) matches Ok(
                        all,
                    )
                    &&& views(entries@) == complete_entries(all)
                    &&& forall|i: int| 0 <= i < entries.len() ==> complete(#[trigger] entries[i]@)
                },
                Err(message) => collected(views(files@), views(audio_exts@), views(text_exts@))
                    == Err::<Seq<DictEntryView>, Seq<char>>(message@),
            },
    {
        let mut collector = EntryCollector::new();
        let mut i: usize = 0;
        assert(views(files@).take(0) == Seq::<ScannedFileView>::empty());
        while i < files.len()
            invariant
                i <= files.len(),
                collected(views(files@).take(i as int), views(audio_exts@), views(text_exts@))
                    == Ok::<Seq<DictEntryView>, Seq<char>>(collector@),
            decreases files.len() - i,
        {
            proof {
                let all = views(files@);
                assert(all.take(i + 1).drop_last() == all.take(i as int));
                assert(all.take(i + 1).last() == files[i as int]@);
            }
            match collector.visit(&files[i], audio_exts, text_exts) {
                Ok(()) => {},
                Err(message) => {
                    proof {
                        lemma_collection_stays_failed(
                            views(files@),
                            i + 1,
                            views(audio_exts@),
                            views(text_exts@),
                        );
                    }
                    return Err(message);
                },
            }
            i += 1;
        }
        assert(views(files@).take(files.len() as int) == views(files@));
        Ok(collector.finish())
    }
}

/// Once the collection of a prefix of the files has failed, that of all of
/// them fails with the same message.
pub proof fn lemma_collection_stays_failed(
    files: Seq<ScannedFileView>,
    n: int,
    audio_exts: Seq<Seq<char>>,
    text_exts: Seq<Seq<char>>,
)
    requires
        0 <= n <= files.len(),
        collected(files.take(n), audio_exts, text_exts) is Err,
    ensures
        collected(files, audio_exts, text_exts) == collected(files.take(n), audio_exts, text_exts),
    decreases files.len() - n,
{
    if n < files.len() {
        assert(files.take(n + 1).drop_last() == files.take(n));
        lemma_collection_stays_failed(files, n + 1, audio_exts, text_exts);
    } else {
        assert(files.take(n) == files);
    }
}

/// The entries gathered so far, in the order in which their stems first
/// appeared.
pub struct EntryCollector {
    entries: Vec<DictEntry>,
}

impl View for EntryCollector {
    type V = Seq<DictEntryView>;

    closed spec fn view(&self) -> Seq<DictEntryView> {
        views(self.entries@)
    }
}

impl EntryCollector {
    /// A collector that has seen no file.
    pub fn new() -> (collector: EntryCollector)
        ensures
            collector@ == Seq::<DictEntryView>::empty(),
    {
        let collector = EntryCollector { entries: Vec::new() };
        assert(collector@ =~= Seq::<DictEntryView>::empty());
        collector
    }

    /// The kind of a file with the extension `extension`.
    pub fn classify(extension: &str, audio_exts: &Vec<String>, text_exts: &Vec<String>) -> (kind:
        FileKind)
        ensures
            kind == kind_of(extension@, views(audio_exts@), views(text_exts@)),
    {
        let lowered = extension.to_lowercase();
        if listed(audio_exts, lowered.as_str()) {
            FileKind::Audio
        } else if listed(text_exts, lowered.as_str()) {
            FileKind::Transcript
        } else {
            FileKind::Unknown
        }
    }

    fn find(&self, stem: &str) -> (at: usize)
        ensures
            at as int == position(self@, stem@),
            at <= self.entries.len(),
    {
        let mut at: usize = 0;
        assert(self@.skip(0) == self@);
        while at < self.entries.len()
            invariant
                at <= self.entries.len(),
                position(self@, stem@) == at + position(self@.skip(at as int), stem@),
            decreases self.entries.len() - at,
        {
            if same_text(self.entries[at].name.as_str(), stem) {
                return at;
            }
            assert(self@.skip(at as int).skip(1) == self@.skip(at + 1));
            at += 1;
        }
        at
    }

    fn store(&mut self, at: usize, entry: DictEntry)
        requires
            at <= old(self).entries.len(),
        ensures
            final(self)@ == stored(old(self)@, at as int, entry@),
    {
        if at < self.entries.len() {
            self.entries.set(at, entry);
            assert(self@ =~= stored(old(self)@, at as int, entry@));
        } else {
            self.entries.push(entry);
            assert(self@ =~= stored(old(self)@, at as int, entry@));
        }
    }

    /// Visits `file`: records it in the entry of its stem, or discards that
    /// entry if the file is neither audio nor transcript. On an error the
    /// collector is left as it was.
    pub fn visit(&mut self, file: &ScannedFile, audio_exts: &Vec<String>, text_exts: &Vec<String>) -> (r:
        Result<(), String>)
        ensures
            match r {
                Ok(()) => visited(old(self)@, file@, views(audio_exts@), views(text_exts@)) == Ok::<
                    Seq<DictEntryView>,
                    Seq<char>,
                >(final(self)@),
                Err(message) => {
                    &&& visited(old(self)@, file@, views(audio_exts@), views(text_exts@)) == Err::<
                        Seq<DictEntryView>,
                        Seq<char>,
                    >(message@)
                    &&& final(self)@ == old(self)@
                },
            },
    {
        let at = self.find(file.stem.as_str());
        let (transcript, audio_path, transcript_path) = if at < self.entries.len() {
            let found = &self.entries[at];
            (found.transcript.clone(), found.audio_path.clone(), found.transcript_path.clone())
        } else {
            (String::new(), String::new(), String::new())
        };
        match EntryCollector::classify(file.extension.as_str(), audio_exts, text_exts) {
            FileKind::Audio => {
                if !audio_path.as_str().is_empty() {
                    return Err(collision(audio_path.as_str(), file.path.as_str()));
                }
                self.store(
                    at,
                    DictEntry {
                        name: file.stem.clone(),
                        transcript,
                        containing_dir: file.parent.clone(),
                        audio_path: file.path.clone(),
                        transcript_path,
                    },
                );
                Ok(())
            },
            FileKind::Transcript => {
                if !transcript_path.as_str().is_empty() {
                    return Err(collision(transcript_path.as_str(), file.path.as_str()));
                }
                let text = match &file.contents {
                    Err(cause) => {
                        return Err(cause.clone());
                    },
                    Ok(bytes) => match decode_transcript(bytes.as_slice()) {
                        Err(message) => {
                            return Err(message);
                        },
                        Ok(text) => text,
                    },
                };
                self.store(
                    at,
                    DictEntry {
                        name: file.stem.clone(),
                        transcript: text,
                        containing_dir: file.parent.clone(),
                        audio_path,
                        transcript_path: file.path.clone(),
                    },
                );
                Ok(())
            },
            FileKind::Unknown => {
                if at < self.entries.len() {
                    self.entries.remove(at);
                    assert(self@ =~= discarded(old(self)@, at as int));
                }
                Ok(())
            },
        }
    }

    /// Ends the collection: the complete entries, in the order in which
    /// their stems first appeared. Entries that lack a field are dropped.
    pub fn finish(self) -> (entries: Vec<DictEntry>)
        ensures
            views(entries@) == complete_entries(self@),
            forall|i: int| 0 <= i < entries.len() ==> complete(#[trigger] entries[i]@),
    {
        let ghost before = self@;
        let mut entries: Vec<DictEntry> = Vec::new();
        let mut i: usize = 0;
        let n = self.entries.len();
        assert(before.take(0) == Seq::<DictEntryView>::empty());
        while i < n
            invariant
                i <= n,
                n == self.entries.len(),
                before == self@,
                views(entries@) == complete_entries(before.take(i as int)),
                forall|j: int| 0 <= j < entries.len() ==> complete(#[trigger] entries[j]@),
            decreases n - i,
        {
            proof {
                assert(before.take(i + 1).drop_last() == before.take(i as int));
                assert(before.take(i + 1).last() == self.entries[i as int]@);
                reveal(Seq::filter);
            }
            let ghost kept = views(entries@);
            if !self.entries[i].is_incomplete() {
                entries.push(self.entries[i].clone());
                assert(views(entries@) =~= kept.push(before[i as int]));
            }
            i += 1;
        }
        assert(before.take(n as int) == before);
        entries
    }
}

} // verus!
