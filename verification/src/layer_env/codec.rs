//! Entries as files of a directory, one file for each entry: the name of the
//! file gives the variable and the behavior, its contents are the value.

use vstd::prelude::*;
use crate::bytes::{copy_bytes, push_bytes};
use crate::layer_env::behavior::ModificationBehavior;
use crate::layer_env::delta::LayerEnvDelta;
use crate::layer_env::sequence::{ascending, lists};
use crate::layer_env::merge::DeltaMap;
use crate::path::{file_extension, file_stem, lemma_split_joined, split_file_name, DOT};

verus! {

/// A file of an environment directory: its name within the directory and its
/// contents, both as they are on disk.
#[derive(Debug)]
pub struct EnvFile {
    /// The file name, without the path of the directory.
    pub name: Vec<u8>,
    /// The contents of the file, byte for byte.
    pub contents: Vec<u8>,
}

impl View for EnvFile {
    type V = (Seq<u8>, Seq<u8>);

    open spec fn view(&self) -> (Seq<u8>, Seq<u8>) {
        (self.name@, self.contents@)
    }
}

/// A list of files as pairs of name and contents.
pub open spec fn file_views(files: Seq<EnvFile>) -> Seq<(Seq<u8>, Seq<u8>)> {
    files.map_values(|file: EnvFile| file@)
}

/// The behavior and the variable that a file name stands for. A name without
/// an extension stands for an `Override` entry; one with an extension that is
/// not known stands for nothing.
pub open spec fn decode_file_name(file_name: Seq<u8>) -> Option<(ModificationBehavior, Seq<u8>)> {
    match file_extension(file_name) {
        None => Some((ModificationBehavior::Override, file_stem(file_name))),
        Some(extension) => match ModificationBehavior::of_extension(extension) {
            Some(behavior) => Some((behavior, file_stem(file_name))),
            None => None,
        },
    }
}

/// The file name that stands for a behavior and a variable: the name of the
/// variable, a dot, and the extension of the behavior.
pub open spec fn encode_file_name(behavior: ModificationBehavior, name: Seq<u8>) -> Seq<u8> {
    name + seq![DOT] + behavior.extension_bytes()
}

/// The entries that a list of files stands for. The files are taken in the
/// order of the list; where two of them stand for the same behavior and
/// variable, the later one counts.
pub open spec fn decode_files(files: Seq<(Seq<u8>, Seq<u8>)>) -> DeltaMap
    decreases files.len(),
{
    if files.len() == 0 {
        Map::empty()
    } else {
        let earlier = decode_files(files.drop_last());
        match decode_file_name(files.last().0) {
            Some(key) => earlier.insert(key, files.last().1),
            None => earlier,
        }
    }
}

/// The files that stand for a list of entries, in the order of the list.
pub open spec fn encode_entries(entries: Seq<(ModificationBehavior, Seq<u8>, Seq<u8>)>) -> Seq<
    (Seq<u8>, Seq<u8>),
> {
    entries.map_values(
        |entry: (ModificationBehavior, Seq<u8>, Seq<u8>)|
            (encode_file_name(entry.0, entry.1), entry.2),
    )
}

/// Whether a list of files is what is written for a map of entries: one file
/// for each entry, in ascending order of behavior and name.
pub open spec fn written_form(files: Seq<(Seq<u8>, Seq<u8>)>, delta: DeltaMap) -> bool {
    exists|entries: Seq<(ModificationBehavior, Seq<u8>, Seq<u8>)>|
        ascending(entries) && lists(entries, delta) && files == #[trigger] encode_entries(entries)
}

/// The file name written for an entry is read back as that entry, unless the
/// name of the variable is empty.
pub proof fn lemma_decode_encoded_name(behavior: ModificationBehavior, name: Seq<u8>)
    requires
        name.len() > 0,
    ensures
        decode_file_name(encode_file_name(behavior, name)) == Some((behavior, name)),
{
    behavior.lemma_extension();
    lemma_split_joined(name, behavior.extension_bytes());
}

/// A file whose extension is not one of the five known ones adds nothing to
/// what a list of files stands for.
pub proof fn lemma_unknown_extension_ignored(
    files: Seq<(Seq<u8>, Seq<u8>)>,
    file: (Seq<u8>, Seq<u8>),
)
    requires
        file_extension(file.0) is Some,
        ModificationBehavior::of_extension(file_extension(file.0)->0) is None,
    ensures
        decode_files(files.push(file)) == decode_files(files),
{
    assert(files.push(file).drop_last() =~= files);
}

/// A file stores its contents as the value of its entry, byte for byte.
pub proof fn lemma_contents_verbatim(files: Seq<(Seq<u8>, Seq<u8>)>, file: (Seq<u8>, Seq<u8>))
    requires
        decode_file_name(file.0) is Some,
    ensures
        decode_files(files.push(file)).contains_key(decode_file_name(file.0)->0),
        decode_files(files.push(file))[decode_file_name(file.0)->0] == file.1,
{
    assert(files.push(file).drop_last() =~= files);
}

/// The entries that the first `count` files written for a list of entries
/// stand for.
spec fn written_prefix(
    entries: Seq<(ModificationBehavior, Seq<u8>, Seq<u8>)>,
    delta: DeltaMap,
    count: int,
) -> DeltaMap {
    Map::new(
        |key: (ModificationBehavior, Seq<u8>)|
            exists|i: int|
                0 <= i < count && (#[trigger] entries[i]).0 == key.0 && entries[i].1 == key.1,
        |key: (ModificationBehavior, Seq<u8>)| delta[key],
    )
}

proof fn lemma_decode_encoded_prefix(
    entries: Seq<(ModificationBehavior, Seq<u8>, Seq<u8>)>,
    delta: DeltaMap,
    count: int,
)
    requires
        lists(entries, delta),
        forall|i: int| 0 <= i < entries.len() ==> (#[trigger] entries[i]).1.len() > 0,
        0 <= count <= entries.len(),
    ensures
        decode_files(encode_entries(entries).take(count)) == written_prefix(entries, delta, count),
    decreases count,
{
    let files = encode_entries(entries).take(count);
    if count == 0 {
        assert(decode_files(files) =~= written_prefix(entries, delta, count));
    } else {
        lemma_decode_encoded_prefix(entries, delta, count - 1);
        let entry = entries[count - 1];
        assert(files.drop_last() =~= encode_entries(entries).take(count - 1));
        assert(files.last() == (encode_file_name(entry.0, entry.1), entry.2));
        lemma_decode_encoded_name(entry.0, entry.1);
        let earlier = written_prefix(entries, delta, count - 1);
        let expected = written_prefix(entries, delta, count);
        assert(decode_files(files) == earlier.insert((entry.0, entry.1), entry.2));
        assert forall|key: (ModificationBehavior, Seq<u8>)|
            #![trigger expected.contains_key(key)]
            #![trigger earlier.insert((entry.0, entry.1), entry.2).contains_key(key)]
            expected.contains_key(key) == earlier.insert(
                (entry.0, entry.1),
                entry.2,
            ).contains_key(key) by {
            if expected.contains_key(key) {
                let i = choose|i: int|
                    0 <= i < count && (#[trigger] entries[i]).0 == key.0 && entries[i].1 == key.1;
                if i < count - 1 {
                    assert(earlier.contains_key(key));
                }
            }
            if earlier.contains_key(key) {
                let i = choose|i: int|
                    0 <= i < count - 1 && (#[trigger] entries[i]).0 == key.0 && entries[i].1
                        == key.1;
                assert(0 <= i < count);
            }
            if key == (entry.0, entry.1) {
                assert(entries[count - 1].0 == key.0);
            }
        }
        assert(decode_files(files) =~= expected);
    }
}

/// Writing the entries of a scope to files and reading the files back yields
/// the same entries, provided that no variable name is empty.
pub proof fn lemma_round_trip(delta: &LayerEnvDelta)
    requires
        delta.wf(),
        forall|key: (ModificationBehavior, Seq<u8>)| delta@.contains_key(key) ==> key.1.len() > 0,
    ensures
        written_form(encode_entries(delta.entries()), delta@),
        decode_files(encode_entries(delta.entries())) == delta@,
{
    delta.lemma_entries();
    lemma_write_then_read(delta.entries(), delta@);
}

/// Writing entries to files and reading the files back yields the same entries,
/// provided that no variable name is empty: the file written for an entry with
/// an empty name starts with its dot, and such a name has no extension.
pub proof fn lemma_write_then_read(
    entries: Seq<(ModificationBehavior, Seq<u8>, Seq<u8>)>,
    delta: DeltaMap,
)
    requires
        lists(entries, delta),
        forall|key: (ModificationBehavior, Seq<u8>)| delta.contains_key(key) ==> key.1.len() > 0,
    ensures
        decode_files(encode_entries(entries)) == delta,
{
    let count = entries.len() as int;
    lemma_decode_encoded_prefix(entries, delta, count);
    assert(encode_entries(entries).take(count) =~= encode_entries(entries));
    assert(written_prefix(entries, delta, count) =~= delta);
}

/// Files in the written form of a map of entries are read back as that map,
/// provided that no variable name is empty.
pub proof fn lemma_written_form_read_back(files: Seq<(Seq<u8>, Seq<u8>)>, delta: DeltaMap)
    requires
        written_form(files, delta),
        forall|key: (ModificationBehavior, Seq<u8>)| delta.contains_key(key) ==> key.1.len() > 0,
    ensures
        decode_files(files) == delta,
{
    let entries = choose|entries: Seq<(ModificationBehavior, Seq<u8>, Seq<u8>)>|
        ascending(entries) && lists(entries, delta) && files == #[trigger] encode_entries(entries);
    lemma_write_then_read(entries, delta);
}

impl LayerEnvDelta {
    /// The entries that the files of an environment directory stand for. The
    /// name of each file is split into stem and extension; the stem is the
    /// name of the variable, the extension gives the behavior (none: `Override`),
    /// and a file with any other extension is skipped. The contents become the
    /// value as they are.
    pub fn read_from_env_dir(files: &[EnvFile]) -> (delta: Self)
        ensures
            delta@ == decode_files(file_views(files@)),
    {
        let mut delta = LayerEnvDelta::empty();
        let mut i: usize = 0;
        while i < files.len()
            invariant
                i <= files.len(),
                delta@ == decode_files(file_views(files@).take(i as int)),
            decreases files.len() - i,
        {
            let file = &files[i];
            let (stem, extension) = split_file_name(file.name.as_slice());
            let behavior = match extension {
                None => Some(ModificationBehavior::Override),
                Some(extension) => ModificationBehavior::from_extension(extension.as_slice()),
            };
            proof {
                let taken = file_views(files@).take(i + 1);
                assert(taken.drop_last() =~= file_views(files@).take(i as int));
                assert(taken.last() == file@);
            }
            match behavior {
                Some(behavior) => {
                    delta.insert(behavior, stem.as_slice(), file.contents.as_slice());
                },
                None => {},
            }
            i += 1;
        }
        assert(file_views(files@).take(i as int) =~= file_views(files@));
        delta
    }

    /// The name of the file that stands for an entry.
    pub fn file_name_for(behavior: ModificationBehavior, name: &[u8]) -> (file_name: Vec<u8>)
        ensures
            file_name@ == encode_file_name(behavior, name@),
    {
        let mut file_name = copy_bytes(name);
        file_name.push(DOT);
        assert(file_name@ =~= name@ + seq![DOT]);
        push_bytes(&mut file_name, behavior.extension());
        file_name
    }

    /// Appends the files that stand for the entries of one behavior.
    fn write_entries_of(&self, behavior: ModificationBehavior, files: &mut Vec<EnvFile>)
        ensures
            file_views(final(files)@) == file_views(old(files)@) + encode_entries(
                self.entries_of_behavior(behavior),
            ),
    {
        let table = self.entries_of(behavior);
        let ghost entries = self.entries_of_behavior(behavior);
        let mut i: usize = 0;
        while i < table.len()
            invariant
                table.wf(),
                *table == self.table(behavior),
                entries == self.entries_of_behavior(behavior),
                i <= table.keys().len(),
                file_views(files@) == file_views(old(files)@) + encode_entries(entries).take(
                    i as int,
                ),
            decreases table.keys().len() - i,
        {
            let name = Self::file_name_for(behavior, table.key_at(i).as_slice());
            let contents = copy_bytes(table.value_at(i).as_slice());
            let ghost before = files@;
            files.push(EnvFile { name, contents });
            proof {
                assert(files@[before.len() as int]@ == encode_entries(entries)[i as int]);
                assert(file_views(files@) =~= file_views(before).push(
                    encode_entries(entries)[i as int],
                ));
                assert(encode_entries(entries).take(i + 1) =~= encode_entries(entries).take(
                    i as int,
                ).push(encode_entries(entries)[i as int]));
                assert(file_views(files@) =~= file_views(old(files)@) + encode_entries(
                    entries,
                ).take(i + 1));
            }
            i += 1;
        }
        assert(encode_entries(entries).take(i as int) =~= encode_entries(entries));
    }

    /// The files that stand for the entries: one file for each entry, named
    /// after the variable and the behavior, holding the value. They come in the
    /// order of the entries. An `Override` entry is written with its extension,
    /// though a file without extension would be read as one too.
    pub fn write_to_env_dir(&self) -> (files: Vec<EnvFile>)
        ensures
            file_views(files@) == encode_entries(self.entries()),
            written_form(file_views(files@), self@),
    {
        let mut files: Vec<EnvFile> = Vec::new();
        assert(file_views(files@) =~= Seq::<(Seq<u8>, Seq<u8>)>::empty());
        self.write_entries_of(ModificationBehavior::Append, &mut files);
        self.write_entries_of(ModificationBehavior::Default, &mut files);
        self.write_entries_of(ModificationBehavior::Delimiter, &mut files);
        self.write_entries_of(ModificationBehavior::Override, &mut files);
        self.write_entries_of(ModificationBehavior::Prepend, &mut files);
        assert(file_views(files@) =~= encode_entries(self.entries()));
        proof {
            use_type_invariant(self);
            self.lemma_entries();
        }
        files
    }
}

} // verus!
