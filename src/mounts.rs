//! Records of the mount table and the parser that builds them from its lines.

use vstd::prelude::*;
use crate::mount_grammar::{
    escape, is_canonical, lemma_escape_unescape, frequency_of, has_stray_space, pass_number_of, split_commas, unescape, words,
};
use crate::scan::{
    from_digit, holds_stray_space, pass_number, split_options, split_words, unescape_field,
    views_of_strings, views_of_strs,
};
use crate::text::same_chars;

verus! {

/// The file system type name of a tmpfs mount.
pub const TMPFS_NAME: &'static str = "tmpfs";

/// The type of a mounted file system, as far as the bridge cares.
#[derive(Debug, Clone)]
pub enum FileSystemType {
    TmpFs,
    Unknown(String),
}

/// The mathematical value of a [`FileSystemType`].
pub enum FileSystemKind {
    TmpFs,
    Unknown(Seq<char>),
}

impl View for FileSystemType {
    type V = FileSystemKind;

    open spec fn view(&self) -> FileSystemKind {
        match self {
            FileSystemType::TmpFs => FileSystemKind::TmpFs,
            FileSystemType::Unknown(s) => FileSystemKind::Unknown(s@),
        }
    }
}

/// The kind that a decoded type field names.
pub open spec fn kind_of(name: Seq<char>) -> FileSystemKind {
    if name == TMPFS_NAME@ {
        FileSystemKind::TmpFs
    } else {
        FileSystemKind::Unknown(name)
    }
}

impl FileSystemType {
    /// The type that a file system type name stands for.
    pub fn from_name(name: String) -> (r: FileSystemType)
        ensures
            r@ == kind_of(name@),
    {
        if same_chars(name.as_str(), TMPFS_NAME) {
            FileSystemType::TmpFs
        } else {
            FileSystemType::Unknown(name)
        }
    }
}

/// One line of the mount table, fully parsed.
#[derive(Debug, Clone)]
pub struct Mount {
    pub device: String,
    pub mount_point: String,
    pub file_system_type: FileSystemType,
    pub options: Vec<String>,
    pub file_system_frequency: u8,
    pub file_system_pass_number: u8,
}

/// The mathematical value of a [`Mount`].
pub struct MountRecord {
    pub device: Seq<char>,
    pub mount_point: Seq<char>,
    pub kind: FileSystemKind,
    pub options: Seq<Seq<char>>,
    pub frequency: u8,
    pub pass_number: u8,
}

impl View for Mount {
    type V = MountRecord;

    open spec fn view(&self) -> MountRecord {
        MountRecord {
            device: self.device@,
            mount_point: self.mount_point@,
            kind: self.file_system_type@,
            options: views_of_strings(self.options@),
            frequency: self.file_system_frequency,
            pass_number: self.file_system_pass_number,
        }
    }
}

/// The record that a mount-table line describes: six blank-separated fields
/// `device mount_point type options frequency pass_number`, with escapes
/// decoded in the first three; `None` where the line does not follow that
/// grammar.
pub open spec fn line_record(line: Seq<char>) -> Option<MountRecord> {
    let w = words(line);
    if has_stray_space(line) || w.len() != 6 {
        None
    } else {
        match (unescape(w[0]), unescape(w[1]), unescape(w[2]), frequency_of(w[4]), pass_number_of(w[5])) {
            (Some(device), Some(mount_point), Some(fs), Some(frequency), Some(pass_number)) => Some(
                MountRecord {
                    device,
                    mount_point,
                    kind: kind_of(fs),
                    options: split_commas(w[3]),
                    frequency,
                    pass_number,
                },
            ),
            _ => None,
        }
    }
}

/// A mount-table line that does not follow the grammar.
#[derive(Debug, Clone, Copy, PartialEq, Eq, Structural)]
pub enum ParseError {
    Malformed,
}

/// Parses one line of the mount table.
pub fn parse_line(line: &str) -> (r: Result<Mount, ParseError>)
    ensures
        match r {
            Ok(m) => line_record(line@) == Some(m@),
            Err(_) => line_record(line@) is None,
        },
{
    if holds_stray_space(line) {
        return Err(ParseError::Malformed);
    }
    let w = split_words(line);
    if w.len() != 6 {
        return Err(ParseError::Malformed);
    }
    assert(w@[0]@ == words(line@)[0] && w@[1]@ == words(line@)[1] && w@[2]@ == words(line@)[2]);
    assert(w@[3]@ == words(line@)[3] && w@[4]@ == words(line@)[4] && w@[5]@ == words(line@)[5]);
    let device = match unescape_field(w[0]) {
        Some(d) => d,
        None => return Err(ParseError::Malformed),
    };
    let mount_point = match unescape_field(w[1]) {
        Some(p) => p,
        None => return Err(ParseError::Malformed),
    };
    let fs = match unescape_field(w[2]) {
        Some(t) => t,
        None => return Err(ParseError::Malformed),
    };
    let frequency = match from_digit(w[4]) {
        Some(f) => f,
        None => return Err(ParseError::Malformed),
    };
    let pass = match pass_number(w[5]) {
        Some(p) => p,
        None => return Err(ParseError::Malformed),
    };
    let options = split_options(w[3]);
    Ok(
        Mount {
            device,
            mount_point,
            file_system_type: FileSystemType::from_name(fs),
            options,
            file_system_frequency: frequency,
            file_system_pass_number: pass,
        },
    )
}

impl Mount {
    /// Parses one line of the mount table.
    pub fn parse(line: &str) -> (r: Result<Mount, ParseError>)
        ensures
            match r {
                Ok(m) => line_record(line@) == Some(m@),
                Err(_) => line_record(line@) is None,
            },
    {
        parse_line(line)
    }
}

pub open spec fn views_of_mounts(v: Seq<Mount>) -> Seq<MountRecord> {
    v.map_values(|m: Mount| m@)
}

/// The records of the lines that parse, in the order of the lines.
pub open spec fn table_records(lines: Seq<Seq<char>>) -> Seq<MountRecord>
    decreases lines.len(),
{
    if lines.len() == 0 {
        Seq::empty()
    } else {
        let before = table_records(lines.drop_last());
        match line_record(lines.last()) {
            Some(m) => before.push(m),
            None => before,
        }
    }
}

/// The indices of the lines that do not parse, in increasing order.
pub open spec fn skipped_lines(lines: Seq<Seq<char>>) -> Seq<int>
    decreases lines.len(),
{
    if lines.len() == 0 {
        Seq::empty()
    } else {
        let before = skipped_lines(lines.drop_last());
        match line_record(lines.last()) {
            Some(_) => before,
            None => before.push(lines.len() - 1),
        }
    }
}

/// The parsed mount table: the records of the lines that parse, and the
/// indices of the lines that were skipped as malformed.
pub struct MountTable {
    pub mounts: Vec<Mount>,
    pub skipped: Vec<usize>,
}

/// Parses the lines of a mount table. A malformed line is skipped and its
/// index recorded; it never stops the lines after it.
pub fn parse_mount_lines(lines: &Vec<String>) -> (r: MountTable)
    ensures
        views_of_mounts(r.mounts@) == table_records(views_of_strings(lines@)),
        r.skipped@.map_values(|i: usize| i as int) == skipped_lines(views_of_strings(lines@)),
{
    let ghost all = views_of_strings(lines@);
    let mut mounts: Vec<Mount> = Vec::new();
    let mut skipped: Vec<usize> = Vec::new();
    let mut i: usize = 0;
    while i < lines.len()
        invariant
            all == views_of_strings(lines@),
            i <= lines.len(),
            views_of_mounts(mounts@) == table_records(all.take(i as int)),
            skipped@.map_values(|k: usize| k as int) == skipped_lines(all.take(i as int)),
        decreases lines.len() - i,
    {
        assert(all.take(i + 1).drop_last() =~= all.take(i as int));
        assert(all.take(i + 1).last() == lines@[i as int]@);
        match parse_line(lines[i].as_str()) {
            Ok(m) => {
                let ghost before = mounts@;
                mounts.push(m);
                assert(views_of_mounts(mounts@) =~= views_of_mounts(before).push(m@));
            },
            Err(_) => {
                let ghost before = skipped@;
                skipped.push(i);
                assert(skipped@.map_values(|k: usize| k as int) =~= before.map_values(
                    |k: usize| k as int,
                ).push(i as int));
            },
        }
        i = i + 1;
    }
    assert(all.take(i as int) =~= all);
    MountTable { mounts, skipped }
}

/// Records and skipped lines together account for every line.
pub proof fn lemma_table_accounts_for_every_line(lines: Seq<Seq<char>>)
    ensures
        table_records(lines).len() + skipped_lines(lines).len() == lines.len(),
    decreases lines.len(),
{
    if lines.len() > 0 {
        lemma_table_accounts_for_every_line(lines.drop_last());
    }
}

/// A table of well-formed lines and one malformed line, wherever it stands,
/// gives one record per well-formed line and reports exactly the malformed one.
pub proof fn lemma_one_malformed_line(lines: Seq<Seq<char>>, k: int)
    requires
        0 <= k < lines.len(),
        line_record(lines[k]) is None,
        forall|i: int| 0 <= i < lines.len() && i != k ==> (#[trigger] line_record(lines[i])) is Some,
    ensures
        skipped_lines(lines) == seq![k],
        table_records(lines).len() == lines.len() - 1,
    decreases lines.len(),
{
    lemma_table_accounts_for_every_line(lines);
    let prefix = lines.drop_last();
    if k == lines.len() - 1 {
        lemma_all_well_formed(prefix);
        assert(skipped_lines(lines) =~= seq![k]);
    } else {
        assert forall|i: int| 0 <= i < prefix.len() && i != k implies (#[trigger] line_record(
            prefix[i],
        )) is Some by {
            assert(prefix[i] == lines[i]);
        }
        assert(prefix[k] == lines[k]);
        lemma_one_malformed_line(prefix, k);
        assert(line_record(lines[lines.len() - 1]) is Some);
    }
}

/// A table whose lines all parse skips none.
pub proof fn lemma_all_well_formed(lines: Seq<Seq<char>>)
    requires
        forall|i: int| 0 <= i < lines.len() ==> (#[trigger] line_record(lines[i])) is Some,
    ensures
        skipped_lines(lines) == Seq::<int>::empty(),
        table_records(lines).len() == lines.len(),
    decreases lines.len(),
{
    if lines.len() > 0 {
        let prefix = lines.drop_last();
        assert forall|i: int| 0 <= i < prefix.len() implies (#[trigger] line_record(
            prefix[i],
        )) is Some by {
            assert(prefix[i] == lines[i]);
        }
        lemma_all_well_formed(prefix);
        assert(line_record(lines[lines.len() - 1]) is Some);
    }
}

/// A device field written in encoded form decodes to a device whose encoding
/// gives back the field's text.
pub proof fn lemma_device_round_trip(line: Seq<char>)
    requires
        line_record(line) is Some,
        is_canonical(words(line)[0]),
    ensures
        escape(line_record(line)->Some_0.device) == words(line)[0],
        unescape(words(line)[0]) == Some(line_record(line)->Some_0.device),
{
    lemma_escape_unescape(words(line)[0]);
}

/// On a line whose first five fields are well formed, the last field decides:
/// the line parses exactly when that field is one of the digits `0`, `1`,
/// `2`, and the record then holds that digit's value.
pub proof fn lemma_pass_number_decides(line: Seq<char>)
    requires
        !has_stray_space(line),
        words(line).len() == 6,
        unescape(words(line)[0]) is Some,
        unescape(words(line)[1]) is Some,
        unescape(words(line)[2]) is Some,
        frequency_of(words(line)[4]) is Some,
    ensures
        line_record(line) is Some <==> {
            let p = words(line)[5];
            p.len() == 1 && (p[0] == '0' || p[0] == '1' || p[0] == '2')
        },
        line_record(line) is Some ==> line_record(line)->Some_0.pass_number <= 2
            && line_record(line)->Some_0.pass_number == words(line)[5][0] as u32 - '0' as u32,
{
}

impl std::str::FromStr for Mount {
    type Err = ParseError;

    fn from_str(s: &str) -> (r: Result<Mount, ParseError>)
        ensures
            match r {
                Ok(m) => line_record(s@) == Some(m@),
                Err(_) => line_record(s@) is None,
            },
    {
        Mount::parse(s)
    }
}

} // verus!
