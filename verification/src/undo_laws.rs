//! A journal of undo records is read back as it was written.

use vstd::prelude::*;
use vstd::utf8::{encode_utf8, is_ascii_chars, is_ascii_chars_encode_utf8};

use crate::artifact::hex_text;
use crate::codec::text_of_encoded;
use crate::numerals::{
    all_digits, decimal_is_short, decimal_reads_back, digits_are_plain, hex_digit_reads_back,
    hex_digits_read_back, number_reads_back, sixteen_digits_hold_a_word, ten_to,
    twenty_digits_hold_a_word,
};
use crate::scan::{digit_value, joined_with, lines_of, pieces, place_is_first, without_return};
use crate::terminal::MAX_TERMINAL_CLI_TEXT_BYTES;
use crate::text::{decimal, hex_digit, hex_digits};
use crate::undo::{
    hex_of, journal_records, paired_bytes, path_in, record_in, record_line, record_lines,
    records_in, with_record, FilesystemUndoRecordView, MAX_UNDO_ENTRIES,
};

verus! {

proof fn hex_pairs_read_back(bytes: Seq<u8>, count: nat)
    requires
        count <= bytes.len(),
    ensures
        hex_text(bytes).len() == 2 * bytes.len(),
        all_digits(hex_text(bytes), 16),
        paired_bytes(hex_text(bytes), count) == Some(bytes.take(count as int)),
    decreases bytes.len(), count,
{
    if bytes.len() == 0 {
        assert(bytes.take(0) =~= Seq::<u8>::empty());
    } else {
        let shorter = bytes.drop_last();
        let text = hex_text(bytes);
        let before = hex_text(shorter);
        let last = bytes.last() as nat;
        hex_pairs_read_back(shorter, shorter.len());
        reveal_with_fuel(hex_digits, 3);
        let high = last / 16;
        let low = last % 16;
        assert(hex_digits(last, 2) =~= seq![hex_digit(high % 16), hex_digit(low)]);
        hex_digit_reads_back(high);
        hex_digit_reads_back(low);
        assert(text[text.len() - 2] == hex_digit(high));
        assert(text[text.len() - 1] == hex_digit(low));
        assert forall|i: int| 0 <= i < text.len() implies digit_value(
            #[trigger] text[i],
            16,
        ) is Some by {
            if i < before.len() {
                assert(text[i] == before[i]);
            }
        }
        if count == bytes.len() {
            pairs_ignore_what_follows(before, text, shorter.len());
            assert(shorter.take(shorter.len() as int) =~= shorter);
            assert((high * 16 + low) as u8 == bytes.last());
            assert(shorter.push(bytes.last()) =~= bytes.take(count as int));
        } else {
            hex_pairs_read_back(shorter, count);
            pairs_ignore_what_follows(before, text, count);
            assert(shorter.take(count as int) =~= bytes.take(count as int));
        }
    }
}

proof fn pairs_ignore_what_follows(shorter: Seq<char>, longer: Seq<char>, count: nat)
    requires
        2 * count <= shorter.len() <= longer.len(),
        forall|i: int| 0 <= i < shorter.len() ==> longer[i] == shorter[i],
    ensures
        paired_bytes(longer, count) == paired_bytes(shorter, count),
    decreases count,
{
    if count > 0 {
        pairs_ignore_what_follows(shorter, longer, (count - 1) as nat);
    }
}

/// A path that fits a record.
pub open spec fn path_fits(path: Seq<char>) -> bool {
    path.len() > 0 && encode_utf8(path).len() <= MAX_TERMINAL_CLI_TEXT_BYTES
}

/// A path is read back from its field.
proof fn path_reads_back(path: Seq<char>)
    requires
        path_fits(path),
    ensures
        path_in(hex_of(path)) == Ok::<Seq<char>, Seq<char>>(path),
        all_digits(hex_of(path), 16),
        hex_of(path).len() <= MAX_TERMINAL_CLI_TEXT_BYTES * 2,
{
    broadcast use text_of_encoded;

    let bytes = encode_utf8(path);
    hex_pairs_read_back(bytes, bytes.len());
    digits_are_plain(hex_of(path), 16);
    is_ascii_chars_encode_utf8(hex_of(path));
    assert(bytes.take(bytes.len() as int) =~= bytes);
    if bytes.len() == 0 {
        assert(bytes =~= encode_utf8(Seq::<char>::empty()));
        assert(crate::codec::text_of(bytes) == Some(path));
        assert(crate::codec::text_of(encode_utf8(Seq::<char>::empty())) == Some(
            Seq::<char>::empty(),
        ));
    }
    assert(hex_of(path).len() / 2 == bytes.len());
}

/// A field, a bar, and the rest.
proof fn pieces_of_joined(first: Seq<char>, rest: Seq<char>)
    requires
        forall|i: int| 0 <= i < first.len() ==> #[trigger] first[i] != '|',
    ensures
        pieces(first + seq!['|'] + rest, '|') == seq![first] + pieces(rest, '|'),
{
    let text = first + seq!['|'] + rest;
    assert forall|i: int| 0 <= i < first.len() implies text[i] != '|' by {
        assert(text[i] == first[i]);
    }
    place_is_first(text, '|', first.len() as int);
    assert(text.take(first.len() as int) =~= first);
    assert(text.skip(first.len() as int + 1) =~= rest);
}

proof fn pieces_of_one(text: Seq<char>)
    requires
        forall|i: int| 0 <= i < text.len() ==> #[trigger] text[i] != '|',
    ensures
        pieces(text, '|') == seq![text],
{
    place_is_first(text, '|', text.len() as int);
}

proof fn digits_have_no_bars(text: Seq<char>, base: nat)
    requires
        all_digits(text, base),
        base <= 16,
    ensures
        forall|i: int| 0 <= i < text.len() ==> #[trigger] text[i] != '|',
{
    digits_are_plain(text, base);
}

/// A record that the journal can hold.
pub open spec fn record_fits(record: FilesystemUndoRecordView) -> bool {
    match record {
        FilesystemUndoRecordView::Move { from, to } => path_fits(from) && path_fits(to),
        FilesystemUndoRecordView::Copy { to, .. } => path_fits(to),
        FilesystemUndoRecordView::Quarantine { original, quarantined } => path_fits(original)
            && path_fits(quarantined),
    }
}

proof fn four_fields(kind: Seq<char>, first: Seq<char>, second: Seq<char>, line: Seq<char>)
    requires
        line == "v1"@ + seq!['|'] + (kind + seq!['|'] + (first + seq!['|'] + second)),
        forall|i: int| 0 <= i < kind.len() ==> #[trigger] kind[i] != '|',
        all_digits(first, 16),
        all_digits(second, 16),
    ensures
        pieces(line, '|') == seq!["v1"@, kind, first, second],
{
    reveal_strlit("v1");
    digits_have_no_bars(first, 16);
    digits_have_no_bars(second, 16);
    pieces_of_one(second);
    pieces_of_joined(first, second);
    pieces_of_joined(kind, first + seq!['|'] + second);
    assert forall|i: int| 0 <= i < "v1"@.len() implies #[trigger] "v1"@[i] != '|' by {}
    pieces_of_joined("v1"@, kind + seq!['|'] + (first + seq!['|'] + second));
    assert(pieces(line, '|') =~= seq!["v1"@, kind, first, second]);
}

proof fn moves_read_back(from: Seq<char>, to: Seq<char>)
    requires
        path_fits(from),
        path_fits(to),
    ensures
        record_in(record_line(FilesystemUndoRecordView::Move { from, to })) == Ok::<
            FilesystemUndoRecordView,
            Seq<char>,
        >(FilesystemUndoRecordView::Move { from, to }),
{
    let line = record_line(FilesystemUndoRecordView::Move { from, to });
    path_reads_back(from);
    path_reads_back(to);
    reveal_strlit("v1|move|");
    reveal_strlit("v1");
    reveal_strlit("move");
    reveal_strlit("|");
    assert(line =~= "v1"@ + seq!['|'] + ("move"@ + seq!['|'] + (hex_of(from) + seq!['|'] + hex_of(
        to,
    ))));
    assert forall|i: int| 0 <= i < "move"@.len() implies #[trigger] "move"@[i] != '|' by {}
    four_fields("move"@, hex_of(from), hex_of(to), line);
}

proof fn quarantines_read_back(original: Seq<char>, quarantined: Seq<char>)
    requires
        path_fits(original),
        path_fits(quarantined),
    ensures
        record_in(
            record_line(FilesystemUndoRecordView::Quarantine { original, quarantined }),
        ) == Ok::<FilesystemUndoRecordView, Seq<char>>(
            FilesystemUndoRecordView::Quarantine { original, quarantined },
        ),
{
    let line = record_line(FilesystemUndoRecordView::Quarantine { original, quarantined });
    path_reads_back(original);
    path_reads_back(quarantined);
    reveal_strlit("v1|quarantine|");
    reveal_strlit("v1");
    reveal_strlit("quarantine");
    reveal_strlit("move");
    reveal_strlit("|");
    assert(line =~= "v1"@ + seq!['|'] + ("quarantine"@ + seq!['|'] + (hex_of(original) + seq!['|']
        + hex_of(quarantined))));
    assert forall|i: int| 0 <= i < "quarantine"@.len() implies #[trigger] "quarantine"@[i]
        != '|' by {}
    four_fields("quarantine"@, hex_of(original), hex_of(quarantined), line);
}

proof fn five_fields(path: Seq<char>, digest: Seq<char>, length: Seq<char>)
    requires
        all_digits(path, 16),
        all_digits(digest, 16),
        all_digits(length, 10),
    ensures
        pieces("v1|copy|"@ + path + "|"@ + digest + "|"@ + length, '|') == seq![
            "v1"@,
            "copy"@,
            path,
            digest,
            length,
        ],
{
    let line = "v1|copy|"@ + path + "|"@ + digest + "|"@ + length;
    let tail = digest + seq!['|'] + length;
    reveal_strlit("v1|copy|");
    reveal_strlit("v1");
    reveal_strlit("copy");
    reveal_strlit("|");
    assert(line =~= "v1"@ + seq!['|'] + ("copy"@ + seq!['|'] + (path + seq!['|'] + tail)));
    digits_have_no_bars(path, 16);
    digits_have_no_bars(digest, 16);
    digits_have_no_bars(length, 10);
    pieces_of_one(length);
    pieces_of_joined(digest, length);
    pieces_of_joined(path, tail);
    assert forall|i: int| 0 <= i < "copy"@.len() implies #[trigger] "copy"@[i] != '|' by {}
    pieces_of_joined("copy"@, path + seq!['|'] + tail);
    assert forall|i: int| 0 <= i < "v1"@.len() implies #[trigger] "v1"@[i] != '|' by {}
    pieces_of_joined("v1"@, "copy"@ + seq!['|'] + (path + seq!['|'] + tail));
    assert(pieces(line, '|') =~= seq!["v1"@, "copy"@, path, digest, length]);
}

proof fn copies_read_back(to: Seq<char>, content_digest: u64, content_len: u64)
    requires
        path_fits(to),
    ensures
        record_in(
            record_line(FilesystemUndoRecordView::Copy { to, content_digest, content_len }),
        ) == Ok::<FilesystemUndoRecordView, Seq<char>>(
            FilesystemUndoRecordView::Copy { to, content_digest, content_len },
        ),
{
    let digest = hex_digits(content_digest as nat, 16);
    let length = decimal(content_len as nat);
    path_reads_back(to);
    hex_digits_read_back(content_digest as nat, 16);
    sixteen_digits_hold_a_word();
    number_reads_back(digest, 16, content_digest as nat, u64::MAX as nat);
    decimal_reads_back(content_len as nat);
    number_reads_back(length, 10, content_len as nat, u64::MAX as nat);
    five_fields(hex_of(to), digest, length);
}

/// A record is read back from its line.
pub proof fn records_read_back(record: FilesystemUndoRecordView)
    requires
        record_fits(record),
    ensures
        record_in(record_line(record)) == Ok::<FilesystemUndoRecordView, Seq<char>>(record),
{
    match record {
        FilesystemUndoRecordView::Move { from, to } => moves_read_back(from, to),
        FilesystemUndoRecordView::Copy { to, content_digest, content_len } => copies_read_back(
            to,
            content_digest,
            content_len,
        ),
        FilesystemUndoRecordView::Quarantine { original, quarantined } => quarantines_read_back(
            original,
            quarantined,
        ),
    }
}

/// A line that can be told from its neighbours.
spec fn is_line(line: Seq<char>) -> bool {
    &&& line.len() > 0
    &&& is_ascii_chars(line)
    &&& forall|i: int| 0 <= i < line.len() ==> #[trigger] line[i] != '\n' && line[i] != '\r'
}

proof fn lines_join(a: Seq<char>, b: Seq<char>)
    requires
        is_ascii_chars(a),
        is_ascii_chars(b),
        forall|i: int| 0 <= i < a.len() ==> #[trigger] a[i] != '\n' && a[i] != '\r',
        forall|i: int| 0 <= i < b.len() ==> #[trigger] b[i] != '\n' && b[i] != '\r',
    ensures
        is_ascii_chars(a + b),
        forall|i: int|
            0 <= i < (a + b).len() ==> #[trigger] (a + b)[i] != '\n' && (a + b)[i] != '\r',
{
    assert forall|i: int| 0 <= i < (a + b).len() implies '\0' <= #[trigger] (a + b)[i]
        <= '\u{7f}' && (a + b)[i] != '\n' && (a + b)[i] != '\r' by {
        if i < a.len() {
            assert((a + b)[i] == a[i]);
        } else {
            assert((a + b)[i] == b[i - a.len()]);
        }
    }
}

/// A heading, two fields and the bar between them make a line.
proof fn two_fields_make_a_line(heading: Seq<char>, first: Seq<char>, second: Seq<char>)
    requires
        is_line(heading),
        heading.len() <= 16,
        all_digits(first, 16),
        all_digits(second, 16),
        first.len() <= 8192,
        second.len() <= 8192,
    ensures
        is_line(heading + first + "|"@ + second),
        (heading + first + "|"@ + second).len() <= 16500,
{
    reveal_strlit("|");
    digits_are_plain(first, 16);
    digits_are_plain(second, 16);
    lines_join(heading, first);
    lines_join(heading + first, "|"@);
    lines_join(heading + first + "|"@, second);
}

proof fn copy_makes_a_line(path: Seq<char>, digest: Seq<char>, length: Seq<char>)
    requires
        all_digits(path, 16),
        all_digits(digest, 16),
        all_digits(length, 10),
        path.len() <= 8192,
        digest.len() == 16,
        length.len() <= 20,
    ensures
        is_line("v1|copy|"@ + path + "|"@ + digest + "|"@ + length),
        ("v1|copy|"@ + path + "|"@ + digest + "|"@ + length).len() <= 16500,
{
    reveal_strlit("v1|copy|");
    reveal_strlit("|");
    let start = "v1|copy|"@ + path + "|"@ + digest;
    assert(is_line("v1|copy|"@));
    two_fields_make_a_line("v1|copy|"@, path, digest);
    digits_are_plain(length, 10);
    lines_join(start, "|"@);
    lines_join(start + "|"@, length);
}

proof fn record_lines_are_lines(record: FilesystemUndoRecordView)
    requires
        record_fits(record),
    ensures
        is_line(record_line(record)),
        record_line(record).len() <= 16500,
{
    match record {
        FilesystemUndoRecordView::Move { from, to } => {
            path_reads_back(from);
            path_reads_back(to);
            reveal_strlit("v1|move|");
            assert(is_line("v1|move|"@));
            two_fields_make_a_line("v1|move|"@, hex_of(from), hex_of(to));
        },
        FilesystemUndoRecordView::Copy { to, content_digest, content_len } => {
            path_reads_back(to);
            hex_digits_read_back(content_digest as nat, 16);
            decimal_reads_back(content_len as nat);
            twenty_digits_hold_a_word();
            decimal_is_short(content_len as nat, 20, ten_to(20));
            copy_makes_a_line(
                hex_of(to),
                hex_digits(content_digest as nat, 16),
                decimal(content_len as nat),
            );
        },
        FilesystemUndoRecordView::Quarantine { original, quarantined } => {
            path_reads_back(original);
            path_reads_back(quarantined);
            reveal_strlit("v1|quarantine|");
            assert(is_line("v1|quarantine|"@));
            two_fields_make_a_line("v1|quarantine|"@, hex_of(original), hex_of(quarantined));
        },
    }
}

/// Joined lines begin with the first of them.
proof fn joined_from_front(list: Seq<Seq<char>>)
    requires
        list.len() > 1,
    ensures
        joined_with(list, "\n"@) == list[0] + "\n"@ + joined_with(list.skip(1), "\n"@),
    decreases list.len(),
{
    let rest = list.skip(1);
    if list.len() == 2 {
        assert(list.drop_last().len() == 1);
        assert(rest.len() == 1);
        assert(rest[0] == list[1]);
        assert(joined_with(list.drop_last(), "\n"@) == list[0]);
        assert(joined_with(rest, "\n"@) == list[1]);
    } else {
        joined_from_front(list.drop_last());
        assert(list.drop_last().skip(1) =~= rest.drop_last());
        assert(rest.last() == list.last());
        assert(joined_with(list, "\n"@) =~= list[0] + "\n"@ + joined_with(rest, "\n"@));
    }
}

proof fn joined_lines_split(list: Seq<Seq<char>>)
    requires
        forall|i: int| 0 <= i < list.len() ==> is_line(#[trigger] list[i]),
    ensures
        lines_of(joined_with(list, "\n"@)) == list,
        list.len() > 0 ==> joined_with(list, "\n"@).len() > 0,
    decreases list.len(),
{
    reveal_strlit("\n");
    let text = joined_with(list, "\n"@);
    if list.len() == 0 {
        assert(lines_of(text) =~= list);
    } else if list.len() == 1 {
        assert(is_line(list[0]));
        place_is_first(text, '\n', text.len() as int);
        assert(lines_of(text) =~= list);
    } else {
        let rest = list.skip(1);
        joined_from_front(list);
        assert forall|i: int| 0 <= i < rest.len() implies is_line(#[trigger] rest[i]) by {
            assert(rest[i] == list[i + 1]);
        }
        joined_lines_split(rest);
        let first = list[0];
        assert(is_line(first));
        let tail = joined_with(rest, "\n"@);
        assert forall|i: int| 0 <= i < first.len() implies text[i] != '\n' by {
            assert(text[i] == first[i]);
        }
        place_is_first(text, '\n', first.len() as int);
        assert(text.take(first.len() as int) =~= first);
        assert(text.skip(first.len() as int + 1) =~= tail);
        assert(first[first.len() - 1] != '\r');
        assert(without_return(first) == first);
        assert(lines_of(text) =~= list);
    }
}

proof fn joined_is_short(list: Seq<Seq<char>>)
    requires
        forall|i: int|
            0 <= i < list.len() ==> is_ascii_chars(#[trigger] list[i]) && list[i].len() <= 16500,
    ensures
        joined_with(list, "\n"@).len() <= 16501 * list.len(),
        is_ascii_chars(joined_with(list, "\n"@)),
    decreases list.len(),
{
    reveal_strlit("\n");
    if list.len() == 1 {
        assert(is_ascii_chars(list[0]));
    } else if list.len() > 1 {
        let rest = list.drop_last();
        assert forall|i: int| 0 <= i < rest.len() implies is_ascii_chars(#[trigger] rest[i])
            && rest[i].len() <= 16500 by {
            assert(rest[i] == list[i]);
        }
        joined_is_short(rest);
        let last = list[list.len() - 1];
        assert(is_ascii_chars(last) && last.len() <= 16500);
        let before = joined_with(rest, "\n"@);
        let text = joined_with(list, "\n"@);
        assert forall|i: int| 0 <= i < text.len() implies '\0' <= #[trigger] text[i]
            <= '\u{7f}' by {
            if i < before.len() {
                assert(text[i] == before[i]);
            } else if i > before.len() {
                assert(text[i] == last[i - before.len() - 1]);
            }
        }
    }
}

proof fn written_lines_are_records(records: Seq<FilesystemUndoRecordView>)
    requires
        forall|i: int| 0 <= i < records.len() ==> record_fits(#[trigger] records[i]),
    ensures
        records_in(record_lines(records)) == Ok::<Seq<FilesystemUndoRecordView>, Seq<char>>(
            records,
        ),
    decreases records.len(),
{
    let list = record_lines(records);
    if records.len() == 0 {
        assert(records =~= Seq::<FilesystemUndoRecordView>::empty());
    } else {
        let rest = records.drop_last();
        assert forall|i: int| 0 <= i < rest.len() implies record_fits(#[trigger] rest[i]) by {
            assert(rest[i] == records[i]);
        }
        written_lines_are_records(rest);
        assert(list.drop_last() =~= record_lines(rest));
        let last = records[records.len() - 1];
        assert(record_fits(last));
        record_lines_are_lines(last);
        is_ascii_chars_encode_utf8(record_line(last));
        records_read_back(last);
        assert(rest.push(last) =~= records);
    }
}

/// A journal is read back as it was written: every record, in order.
pub proof fn journals_read_back(records: Seq<FilesystemUndoRecordView>)
    requires
        records.len() <= MAX_UNDO_ENTRIES,
        forall|i: int| 0 <= i < records.len() ==> record_fits(#[trigger] records[i]),
    ensures
        journal_records(joined_with(record_lines(records), "\n"@)) == Ok::<
            Seq<FilesystemUndoRecordView>,
            Seq<char>,
        >(records),
{
    let list = record_lines(records);
    assert forall|i: int| 0 <= i < list.len() implies is_line(#[trigger] list[i])
        && is_ascii_chars(list[i]) && list[i].len() <= 16500 by {
        assert(record_fits(records[i]));
        record_lines_are_lines(records[i]);
    }
    joined_lines_split(list);
    joined_is_short(list);
    is_ascii_chars_encode_utf8(joined_with(list, "\n"@));
    written_lines_are_records(records);
}

/// The latest record is always kept, and never more than the limit.
pub proof fn journals_keep_the_latest(
    records: Seq<FilesystemUndoRecordView>,
    record: FilesystemUndoRecordView,
)
    requires
        records.len() <= MAX_UNDO_ENTRIES,
    ensures
        with_record(records, record).len() <= MAX_UNDO_ENTRIES,
        with_record(records, record).last() == record,
{
}

} // verus!
