//! The journal of records that undo executed operations.

use vstd::prelude::*;
use vstd::string::StringExecFns;
use vstd::utf8::encode_utf8;

use crate::artifact::{hex_text, push_hex_bytes};
use crate::codec::{outcome, string_from_utf8, text_of};
use crate::scan::{
    digit_value, is_text, joined_with, lines, lines_of, number_in, parse_number, pieces, read_digit,
    split_on,
};
use crate::terminal::{debug_of, debug_text, TerminalCliError, MAX_TERMINAL_CLI_TEXT_BYTES};
use crate::text::{chars_of, decimal, hex_digits, push_decimal, push_hex, texts};

verus! {

pub const MAX_UNDO_ENTRIES: usize = 32;

pub const MAX_UNDO_LINE_BYTES: usize = 65536;

/// What undoes an operation.
#[derive(Clone, Debug, PartialEq, Eq)]
pub enum FilesystemUndoRecord {
    Move { from: String, to: String },
    Copy { to: String, content_digest: u64, content_len: u64 },
    Quarantine { original: String, quarantined: String },
}

#[allow(inconsistent_fields)]
pub enum FilesystemUndoRecordView {
    Move { from: Seq<char>, to: Seq<char> },
    Copy { to: Seq<char>, content_digest: u64, content_len: u64 },
    Quarantine { original: Seq<char>, quarantined: Seq<char> },
}

impl View for FilesystemUndoRecord {
    type V = FilesystemUndoRecordView;

    open spec fn view(&self) -> FilesystemUndoRecordView {
        match *self {
            FilesystemUndoRecord::Move { from, to } => FilesystemUndoRecordView::Move {
                from: from@,
                to: to@,
            },
            FilesystemUndoRecord::Copy { to, content_digest, content_len } =>
                FilesystemUndoRecordView::Copy { to: to@, content_digest, content_len },
            FilesystemUndoRecord::Quarantine { original, quarantined } =>
                FilesystemUndoRecordView::Quarantine {
                    original: original@,
                    quarantined: quarantined@,
                },
        }
    }
}

pub open spec fn record_views(records: Seq<FilesystemUndoRecord>) -> Seq<
    FilesystemUndoRecordView,
> {
    records.map_values(|record: FilesystemUndoRecord| record@)
}

// ---------------------------------------------------------------------------
// One record.

/// The bytes of a text in hexadecimal.
pub open spec fn hex_of(text: Seq<char>) -> Seq<char> {
    hex_text(encode_utf8(text))
}

/// The line of a record.
pub open spec fn record_line(record: FilesystemUndoRecordView) -> Seq<char> {
    match record {
        FilesystemUndoRecordView::Move { from, to } => "v1|move|"@ + hex_of(from) + "|"@ + hex_of(
            to,
        ),
        FilesystemUndoRecordView::Copy { to, content_digest, content_len } => "v1|copy|"@ + hex_of(
            to,
        ) + "|"@ + hex_digits(content_digest as nat, 16) + "|"@ + decimal(content_len as nat),
        FilesystemUndoRecordView::Quarantine { original, quarantined } => "v1|quarantine|"@
            + hex_of(original) + "|"@ + hex_of(quarantined),
    }
}

pub fn encode_undo_record(record: &FilesystemUndoRecord) -> (line: String)
    ensures
        line@ == record_line(record@),
{
    match record {
        FilesystemUndoRecord::Move { from, to } => {
            let mut out = "v1|move|".to_owned();
            push_hex_bytes(&mut out, from.as_str().as_bytes());
            out.append("|");
            push_hex_bytes(&mut out, to.as_str().as_bytes());
            out
        },
        FilesystemUndoRecord::Copy { to, content_digest, content_len } => {
            let mut out = "v1|copy|".to_owned();
            push_hex_bytes(&mut out, to.as_str().as_bytes());
            out.append("|");
            push_hex(&mut out, *content_digest, 16);
            out.append("|");
            push_decimal(&mut out, *content_len as u128);
            out
        },
        FilesystemUndoRecord::Quarantine { original, quarantined } => {
            let mut out = "v1|quarantine|".to_owned();
            push_hex_bytes(&mut out, original.as_str().as_bytes());
            out.append("|");
            push_hex_bytes(&mut out, quarantined.as_str().as_bytes());
            out
        },
    }
}

/// The bytes that the first `count` pairs of hexadecimal digits spell.
pub open spec fn paired_bytes(chars: Seq<char>, count: nat) -> Option<Seq<u8>>
    decreases count,
{
    if count == 0 {
        Some(seq![])
    } else {
        match (
            paired_bytes(chars, (count - 1) as nat),
            digit_value(chars[2 * count - 2], 16),
            digit_value(chars[2 * count - 1], 16),
        ) {
            (Some(before), Some(high), Some(low)) => Some(before.push((high * 16 + low) as u8)),
            _ => None,
        }
    }
}

/// The path that a field spells.
pub open spec fn path_in(field: Seq<char>) -> Result<Seq<char>, Seq<char>> {
    let length = encode_utf8(field).len();
    if field.len() == 0 || length % 2 != 0 || length > MAX_TERMINAL_CLI_TEXT_BYTES * 2 {
        Err("invalid terminal undo path encoding"@)
    } else {
        match paired_bytes(field, field.len() / 2) {
            None => Err("invalid terminal undo path encoding"@),
            Some(bytes) => match text_of(bytes) {
                None => Err("terminal undo path is not UTF-8"@),
                Some(path) => Ok(path),
            },
        }
    }
}

fn refuse<T>(message: &str) -> (result: Result<T, TerminalCliError>)
    ensures
        result matches Err(error) && error@ == message@,
{
    Err(TerminalCliError(message.to_owned()))
}

proof fn bad_pair_stays(chars: Seq<char>, count: nat, total: nat)
    requires
        count <= total,
        paired_bytes(chars, count) is None,
    ensures
        paired_bytes(chars, total) is None,
    decreases total,
{
    if count < total {
        bad_pair_stays(chars, count, (total - 1) as nat);
    }
}

fn decode_hex(field: &str) -> (result: Result<String, TerminalCliError>)
    ensures
        outcome(result) == path_in(field@),
{
    let chars = chars_of(field);
    let length: usize = field.as_bytes().len();
    if chars.len() == 0 || length % 2 != 0 || length > MAX_TERMINAL_CLI_TEXT_BYTES * 2 {
        return refuse("invalid terminal undo path encoding");
    }
    let pairs: usize = chars.len() / 2;
    let mut bytes: Vec<u8> = Vec::new();
    let mut index: usize = 0;
    assert(bytes@ =~= Seq::<u8>::empty());
    while index < pairs
        invariant
            index <= pairs,
            chars@ == field@,
            field@.len() > 0,
            length == encode_utf8(field@).len(),
            length % 2 == 0,
            length <= MAX_TERMINAL_CLI_TEXT_BYTES * 2,
            pairs == field@.len() / 2,
            paired_bytes(field@, index as nat) == Some(bytes@),
        decreases pairs - index,
    {
        assert(2 * (index + 1) - 2 == 2 * index);
        let high = read_digit(chars[2 * index], 16);
        let low = read_digit(chars[2 * index + 1], 16);
        match (high, low) {
            (Some(high), Some(low)) => {
                assert(high < 16 && low < 16);
                bytes.push((high * 16 + low) as u8);
            },
            _ => {
                proof {
                    assert(paired_bytes(field@, (index + 1) as nat) is None);
                    bad_pair_stays(field@, (index + 1) as nat, pairs as nat);
                }
                return refuse("invalid terminal undo path encoding");
            },
        }
        index += 1;
    }
    match string_from_utf8(bytes) {
        Some(path) => Ok(path),
        None => refuse("terminal undo path is not UTF-8"),
    }
}

pub open spec fn two_paths_in(first: Seq<char>, second: Seq<char>) -> Result<
    (Seq<char>, Seq<char>),
    Seq<char>,
> {
    match path_in(first) {
        Err(error) => Err(error),
        Ok(a) => match path_in(second) {
            Err(error) => Err(error),
            Ok(b) => Ok((a, b)),
        },
    }
}

pub open spec fn copy_in(to: Seq<char>, digest: Seq<char>, length: Seq<char>) -> Result<
    FilesystemUndoRecordView,
    Seq<char>,
> {
    match path_in(to) {
        Err(error) => Err(error),
        Ok(to) => match number_in(digest, 16, u64::MAX as nat) {
            None => Err("invalid copy undo digest"@),
            Some(digest) => match number_in(length, 10, u64::MAX as nat) {
                None => Err("invalid copy undo length"@),
                Some(length) => Ok(
                    FilesystemUndoRecordView::Copy {
                        to,
                        content_digest: digest as u64,
                        content_len: length as u64,
                    },
                ),
            },
        },
    }
}

/// The record that a line spells.
pub open spec fn record_in(line: Seq<char>) -> Result<FilesystemUndoRecordView, Seq<char>> {
    let fields = pieces(line, '|');
    if fields.len() == 4 && fields[0] == "v1"@ && fields[1] == "move"@ {
        match two_paths_in(fields[2], fields[3]) {
            Ok((from, to)) => Ok(FilesystemUndoRecordView::Move { from, to }),
            Err(error) => Err(error),
        }
    } else if fields.len() == 5 && fields[0] == "v1"@ && fields[1] == "copy"@ {
        copy_in(fields[2], fields[3], fields[4])
    } else if fields.len() == 4 && fields[0] == "v1"@ && fields[1] == "quarantine"@ {
        match two_paths_in(fields[2], fields[3]) {
            Ok((original, quarantined)) => Ok(
                FilesystemUndoRecordView::Quarantine { original, quarantined },
            ),
            Err(error) => Err(error),
        }
    } else {
        Err("invalid terminal undo record"@)
    }
}

pub fn decode_undo_record(line: &str) -> (result: Result<FilesystemUndoRecord, TerminalCliError>)
    ensures
        outcome(result) == record_in(line@),
{
    let fields = split_on(line, '|');
    let ghost views = texts(fields@);
    let count: usize = fields.len();
    if count != 4 && count != 5 {
        return refuse("invalid terminal undo record");
    }
    proof {
        assert(views[0] == fields@[0]@);
        assert(views[1] == fields@[1]@);
        assert(views[2] == fields@[2]@);
        assert(views[3] == fields@[3]@);
        if count == 5 {
            assert(views[4] == fields@[4]@);
        }
        reveal_strlit("move");
        reveal_strlit("quarantine");
    }
    if !is_text(fields[0].as_str(), "v1") {
        return refuse("invalid terminal undo record");
    }
    let kind = fields[1].as_str();
    if count == 4 && is_text(kind, "move") {
        let from = decode_hex(fields[2].as_str())?;
        let to = decode_hex(fields[3].as_str())?;
        return Ok(FilesystemUndoRecord::Move { from, to });
    }
    if count == 5 && is_text(kind, "copy") {
        let to = decode_hex(fields[2].as_str())?;
        let content_digest: u64 = match parse_number(fields[3].as_str(), 16, u64::MAX) {
            Some(digest) => digest,
            None => {
                return refuse("invalid copy undo digest");
            },
        };
        let content_len: u64 = match parse_number(fields[4].as_str(), 10, u64::MAX) {
            Some(length) => length,
            None => {
                return refuse("invalid copy undo length");
            },
        };
        return Ok(FilesystemUndoRecord::Copy { to, content_digest, content_len });
    }
    if count == 4 && is_text(kind, "quarantine") {
        let original = decode_hex(fields[2].as_str())?;
        let quarantined = decode_hex(fields[3].as_str())?;
        return Ok(FilesystemUndoRecord::Quarantine { original, quarantined });
    }
    refuse("invalid terminal undo record")
}

// ---------------------------------------------------------------------------
// The journal.

/// The records of the lines, up to the first that cannot be read. Empty lines
/// are passed over.
pub open spec fn records_in(list: Seq<Seq<char>>) -> Result<
    Seq<FilesystemUndoRecordView>,
    Seq<char>,
>
    decreases list.len(),
{
    if list.len() == 0 {
        Ok(seq![])
    } else {
        match records_in(list.drop_last()) {
            Err(error) => Err(error),
            Ok(before) => if list.last().len() == 0 {
                Ok(before)
            } else if encode_utf8(list.last()).len() > MAX_UNDO_LINE_BYTES {
                Err("terminal undo record is too large"@)
            } else {
                match record_in(list.last()) {
                    Err(error) => Err(error),
                    Ok(record) => Ok(before.push(record)),
                }
            },
        }
    }
}

/// The records of a journal.
pub open spec fn journal_records(source: Seq<char>) -> Result<
    Seq<FilesystemUndoRecordView>,
    Seq<char>,
> {
    if encode_utf8(source).len() > MAX_UNDO_ENTRIES * MAX_UNDO_LINE_BYTES {
        Err("terminal undo journal is too large"@)
    } else {
        match records_in(lines_of(source)) {
            Err(error) => Err(error),
            Ok(records) => if records.len() > MAX_UNDO_ENTRIES {
                Err("terminal undo journal has too many records"@)
            } else {
                Ok(records)
            },
        }
    }
}

proof fn unread_record_stays(list: Seq<Seq<char>>, count: int)
    requires
        0 <= count <= list.len(),
        records_in(list.take(count)) is Err,
    ensures
        records_in(list) == records_in(list.take(count)),
    decreases list.len(),
{
    if count < list.len() {
        assert(list.drop_last().take(count) =~= list.take(count));
        unread_record_stays(list.drop_last(), count);
    } else {
        assert(list.take(count) =~= list);
    }
}

/// Reads a journal.
pub fn parse_journal(source: &str) -> (result: Result<
    Vec<FilesystemUndoRecord>,
    TerminalCliError,
>)
    ensures
        match journal_records(source@) {
            Ok(records) => result matches Ok(found) && record_views(found@) == records,
            Err(refused) => result matches Err(error) && error@ == refused,
        },
{
    if source.as_bytes().len() > MAX_UNDO_ENTRIES * MAX_UNDO_LINE_BYTES {
        return refuse("terminal undo journal is too large");
    }
    let list = lines(source);
    let ghost views = texts(list@);
    let mut records: Vec<FilesystemUndoRecord> = Vec::new();
    let mut index: usize = 0;
    proof {
        assert(views.take(0) =~= Seq::<Seq<char>>::empty());
        assert(record_views(records@) =~= Seq::<FilesystemUndoRecordView>::empty());
    }
    while index < list.len()
        invariant
            index <= list@.len(),
            views == texts(list@),
            views == lines_of(source@),
            encode_utf8(source@).len() <= MAX_UNDO_ENTRIES * MAX_UNDO_LINE_BYTES,
            records_in(views.take(index as int)) == Ok::<
                Seq<FilesystemUndoRecordView>,
                Seq<char>,
            >(record_views(records@)),
        decreases list.len() - index,
    {
        let line = list[index].as_str();
        proof {
            let now = views.take(index + 1);
            assert(now.drop_last() =~= views.take(index as int));
            assert(now.last() == line@);
            if records_in(now) is Err {
                unread_record_stays(views, index + 1);
            }
            reveal_strlit("");
            if line@.len() == 0 {
                assert(line@ =~= ""@);
            }
        }
        if !is_text(line, "") {
            if line.as_bytes().len() > MAX_UNDO_LINE_BYTES {
                return refuse("terminal undo record is too large");
            }
            let record = decode_undo_record(line)?;
            let ghost before = records@;
            records.push(record);
            assert(record_views(records@) =~= record_views(before).push(record@));
        }
        index += 1;
    }
    assert(views.take(views.len() as int) =~= views);
    if records.len() > MAX_UNDO_ENTRIES {
        return refuse("terminal undo journal has too many records");
    }
    Ok(records)
}

pub open spec fn record_lines(records: Seq<FilesystemUndoRecordView>) -> Seq<Seq<char>> {
    records.map_values(|record: FilesystemUndoRecordView| record_line(record))
}

/// The text of a journal.
pub fn render_journal(records: &Vec<FilesystemUndoRecord>) -> (result: Result<
    String,
    TerminalCliError,
>)
    ensures
        match result {
            Ok(source) => records@.len() <= MAX_UNDO_ENTRIES && source@ == joined_with(
                record_lines(record_views(records@)),
                "\n"@,
            ),
            Err(error) => records@.len() > MAX_UNDO_ENTRIES && error@
                == "terminal undo journal has too many records"@,
        },
{
    if records.len() > MAX_UNDO_ENTRIES {
        return refuse("terminal undo journal has too many records");
    }
    let mut list: Vec<String> = Vec::new();
    let ghost expected = record_lines(record_views(records@));
    let mut index: usize = 0;
    assert(texts(list@) =~= expected.take(0));
    while index < records.len()
        invariant
            index <= records@.len(),
            expected == record_lines(record_views(records@)),
            texts(list@) == expected.take(index as int),
        decreases records.len() - index,
    {
        let ghost before = list@;
        list.push(encode_undo_record(&records[index]));
        index += 1;
        proof {
            assert(texts(list@) =~= texts(before).push(expected[index - 1]));
            assert(texts(list@) =~= expected.take(index as int));
        }
    }
    assert(texts(list@).skip(0) =~= expected);
    Ok(crate::scan::join(&list, 0, "\n"))
}

/// The records with one more. Beyond the limit the oldest goes.
pub open spec fn with_record(
    records: Seq<FilesystemUndoRecordView>,
    record: FilesystemUndoRecordView,
) -> Seq<FilesystemUndoRecordView> {
    let longer = records.push(record);
    if longer.len() > MAX_UNDO_ENTRIES {
        longer.skip(1)
    } else {
        longer
    }
}

pub fn append_record(records: &mut Vec<FilesystemUndoRecord>, record: FilesystemUndoRecord)
    ensures
        record_views(final(records)@) == with_record(record_views(old(records)@), record@),
{
    let ghost before = record_views(records@);
    records.push(record);
    assert(record_views(records@) =~= before.push(record@));
    if records.len() > MAX_UNDO_ENTRIES {
        let ghost longer = records@;
        let _ = records.remove(0);
        assert(record_views(records@) =~= record_views(longer).skip(1));
    }
}

/// Takes the latest record away.
pub fn remove_latest(records: &mut Vec<FilesystemUndoRecord>) -> (result: Result<
    FilesystemUndoRecord,
    TerminalCliError,
>)
    ensures
        match result {
            Ok(record) => {
                &&& old(records)@.len() > 0
                &&& record == old(records)@.last()
                &&& final(records)@ == old(records)@.drop_last()
            },
            Err(error) => {
                &&& old(records)@.len() == 0
                &&& error@ == "terminal undo journal is empty"@
                &&& final(records)@ == old(records)@
            },
        },
{
    match records.pop() {
        Some(record) => Ok(record),
        None => refuse("terminal undo journal is empty"),
    }
}

/// What is left over from an interrupted write, and what to do about it.
#[derive(Clone, Copy, Debug, PartialEq, Eq, Structural)]
pub struct JournalRecovery {
    pub restore_backup: bool,
    pub remove_backup: bool,
    pub remove_temporary: bool,
}

/// A backup stands in for a journal that is gone; otherwise leftovers go.
pub fn plan_recovery(journal: bool, backup: bool, temporary: bool) -> (plan: JournalRecovery)
    ensures
        plan.restore_backup == (backup && !journal),
        plan.remove_backup == (backup && journal),
        plan.remove_temporary == temporary,
{
    JournalRecovery {
        restore_backup: backup && !journal,
        remove_backup: backup && journal,
        remove_temporary: temporary,
    }
}

/// A record as `{:?}` shows it.
pub open spec fn record_text(record: FilesystemUndoRecordView) -> Seq<char> {
    match record {
        FilesystemUndoRecordView::Move { from, to } => "Move { from: "@ + debug_text(from)
            + ", to: "@ + debug_text(to) + " }"@,
        FilesystemUndoRecordView::Copy { to, content_digest, content_len } => "Copy { to: "@
            + debug_text(to) + ", content_digest: "@ + decimal(content_digest as nat)
            + ", content_len: "@ + decimal(content_len as nat) + " }"@,
        FilesystemUndoRecordView::Quarantine { original, quarantined } =>
            "Quarantine { original: "@ + debug_text(original) + ", quarantined: "@ + debug_text(
            quarantined,
        ) + " }"@,
    }
}

fn push_record(out: &mut String, record: &FilesystemUndoRecord)
    ensures
        final(out)@ == old(out)@ + record_text(record@),
{
    let mut shown = String::new();
    match record {
        FilesystemUndoRecord::Move { from, to } => {
            shown.append("Move { from: ");
            assert(shown@ =~= "Move { from: "@);
            shown.append(debug_of(from.as_str()).as_str());
            shown.append(", to: ");
            shown.append(debug_of(to.as_str()).as_str());
            shown.append(" }");
        },
        FilesystemUndoRecord::Copy { to, content_digest, content_len } => {
            shown.append("Copy { to: ");
            assert(shown@ =~= "Copy { to: "@);
            shown.append(debug_of(to.as_str()).as_str());
            shown.append(", content_digest: ");
            push_decimal(&mut shown, *content_digest as u128);
            shown.append(", content_len: ");
            push_decimal(&mut shown, *content_len as u128);
            shown.append(" }");
        },
        FilesystemUndoRecord::Quarantine { original, quarantined } => {
            shown.append("Quarantine { original: ");
            assert(shown@ =~= "Quarantine { original: "@);
            shown.append(debug_of(original.as_str()).as_str());
            shown.append(", quarantined: ");
            shown.append(debug_of(quarantined.as_str()).as_str());
            shown.append(" }");
        },
    }
    out.append(shown.as_str());
}

/// The report of an undone operation.
pub fn render_undo(record: &FilesystemUndoRecord) -> (text: String)
    ensures
        text@ == "Terminal undo\nRecord: "@ + record_text(record@) + "\nState: Compensated\n"@,
{
    let mut out = "Terminal undo\nRecord: ".to_owned();
    push_record(&mut out, record);
    out.append("\nState: Compensated\n");
    out
}

} // verus!
