//! What is read from a log that was written, cut off or damaged.
#[allow(unused_imports)]
use crate::wal::{LogView, OpenView, WalRead};
use vstd::prelude::*;

verus! {

/// Entries wait in memory until as many have come in as the threshold says, and then all of them go
/// to the file together, in order. None is lost, and none goes earlier.
pub proof fn entries_wait_for_the_threshold(log: LogView, entry: Seq<u8>)
    ensures
        ({
            let after = log.appended(entry);
            &&& log.entries_since_flush + 1 < log.threshold ==> after.flushed == log.flushed
                && after.buffered == log.buffered + crate::wal::framed(entry)
                && after.entries_since_flush == log.entries_since_flush + 1
            &&& log.entries_since_flush + 1 >= log.threshold ==> after.flushed == log.flushed
                + log.buffered + crate::wal::framed(entry) && after.buffered.len() == 0
                && after.entries_since_flush == 0
        }),
{
    assert(log.flushed + (log.buffered + crate::wal::framed(entry)) =~= log.flushed + log.buffered
        + crate::wal::framed(entry));
}

/// A flush sends everything to the file that waits, in order, and nothing waits any more.
pub proof fn flushes_send_everything(log: LogView)
    ensures
        log.after_flush().flushed == log.flushed + log.buffered,
        log.after_flush().buffered.len() == 0,
        log.after_flush().entries_since_flush == 0,
        log.after_flush().base_revision == log.base_revision,
        log.after_flush().threshold == log.threshold,
{
}

/// Bytes that go to the file are handed out in order: with those that were handed out before what is
/// left, the log is as it was.
pub proof fn bytes_are_handed_out_in_order(log: LogView, bytes: Seq<u8>)
    requires
        bytes.len() <= log.flushed.len(),
        log.flushed.take(bytes.len() as int) == bytes,
    ensures
        bytes + log.after_taking(bytes).bytes() == log.bytes(),
        log.after_taking(bytes).buffered == log.buffered,
        log.after_taking(bytes).entries_since_flush == log.entries_since_flush,
{
    assert(bytes + log.after_taking(bytes).bytes() =~= log.bytes());
}

/// What an entry's bytes decode to, as something that was read from a log.
pub open spec fn read_of(bytes: Seq<u8>) -> WalRead {
    match crate::postcard::entry_from_postcard(bytes) {
        Ok(entry) => WalRead::Entry(entry),
        Err(message) => WalRead::Undecodable(message),
    }
}

/// An entry that was written is read first, and then what was written behind it; one that cannot be
/// decoded does not keep those behind it from being read. One that is longer than any entry may be
/// is refused.
pub proof fn entries_are_read_one_by_one(bytes: Seq<u8>, tail: Seq<u8>)
    requires
        bytes.len() <= u32::MAX,
    ensures
        bytes.len() <= 100_000_000 ==> {
            &&& crate::wal::next_in(crate::wal::framed(bytes) + tail) == (read_of(bytes), tail)
            &&& crate::wal::all_in(crate::wal::framed(bytes) + tail) == seq![read_of(bytes)]
                + crate::wal::all_in(tail)
        },
        bytes.len() > 100_000_000 ==> crate::wal::next_in(crate::wal::framed(bytes) + tail).0
            == WalRead::TooLong(bytes.len() as u32),
{
    crate::wal::frame_starts_with_len(bytes, tail);
}

/// An entry that was not written to its end is noticed: where only part of its length stands in the
/// log, the log ends before it, and where more of it stands there, it is an error.
pub proof fn cut_off_entries_are_noticed(bytes: Seq<u8>, written: int)
    requires
        bytes.len() <= 100_000_000,
        0 <= written < bytes.len() + 4,
    ensures
        crate::wal::all_in(crate::wal::framed(bytes).take(written)) == (if written < 4 {
            Seq::empty()
        } else {
            seq![WalRead::CutOff]
        }),
{
    reveal_with_fuel(crate::wal::all_in, 2);
    let whole = crate::wal::framed(bytes) + Seq::<u8>::empty();
    crate::wal::frame_starts_with_len(bytes, Seq::empty());
    assert(whole =~= crate::wal::framed(bytes));
    let part = crate::wal::framed(bytes).take(written);
    if written >= 4 {
        assert(part.take(4) =~= whole.take(4));
        assert(seq![WalRead::CutOff] + Seq::<WalRead>::empty() =~= seq![WalRead::CutOff]);
    }
}

/// Where several entries were written and then one only in part, all the whole ones are read.
pub proof fn whole_entries_are_read(frames: Seq<Seq<u8>>, bytes: Seq<u8>, written: int)
    requires
        forall|i: int| 0 <= i < frames.len() ==> (#[trigger] frames[i]).len() <= 100_000_000,
        bytes.len() <= 100_000_000,
        0 <= written < bytes.len() + 4,
    ensures
        ({
            let reads = crate::wal::all_in(
                crate::wal::all_framed(frames) + crate::wal::framed(bytes).take(written),
            );
            &&& reads.len() == frames.len() + (if written < 4 {
                0int
            } else {
                1
            })
            &&& forall|i: int|
                0 <= i < frames.len() ==> (#[trigger] reads[i]) == read_of(frames[i])
            &&& written >= 4 ==> reads.last() == WalRead::CutOff
        }),
    decreases frames.len(),
{
    let part = crate::wal::framed(bytes).take(written);
    if frames.len() == 0 {
        cut_off_entries_are_noticed(bytes, written);
        assert(crate::wal::all_framed(frames) + part =~= part);
    } else {
        let others = frames.skip(1);
        assert forall|i: int| 0 <= i < others.len() implies (#[trigger] others[i]).len()
            <= 100_000_000 by {
            assert(others[i] == frames[i + 1]);
        }
        whole_entries_are_read(others, bytes, written);
        crate::wal::all_framed_first(frames);
        let rest = crate::wal::all_framed(others) + part;
        assert(frames[0].len() <= 100_000_000);
        entries_are_read_one_by_one(frames[0], rest);
        assert(crate::wal::all_framed(frames) + part =~= crate::wal::framed(frames[0]) + rest);
        let reads = crate::wal::all_in(crate::wal::all_framed(frames) + part);
        assert forall|i: int| 0 <= i < frames.len() implies (#[trigger] reads[i]) == read_of(
            frames[i],
        ) by {
            if i > 0 {
                assert(reads[i] == crate::wal::all_in(rest)[i - 1]);
                assert(others[i - 1] == frames[i]);
            }
        }
    }
}

/// The bytes that every log starts with.
pub open spec fn starts_as_log(bytes: Seq<u8>) -> bool {
    &&& bytes.len() >= 8
    &&& bytes[0] == 80
    &&& bytes[1] == 73
    &&& bytes[2] == 67
    &&& bytes[3] == 65
    &&& bytes[4] == 78
    &&& bytes[5] == 84
    &&& bytes[6] == 69
    &&& bytes[7] == 0
}

/// A log is opened if and only if it starts as every log does, with a header of this version behind
/// that; what is left to read then is what stands behind the header.
pub proof fn only_logs_are_opened(start: Seq<u8>, header: Seq<u8>, tail: Seq<u8>)
    requires
        start.len() == 8,
        header.len() <= u32::MAX,
    ensures
        ({
            let opened = crate::wal::opened(start + crate::wal::framed(header) + tail);
            &&& !starts_as_log(start) ==> opened == OpenView::WrongMagic(start)
            &&& starts_as_log(start) && header.len() > 1_000_000 ==> opened == OpenView::TooLong(
                header.len() as u32,
            )
            &&& starts_as_log(start) && header.len() <= 1_000_000 ==> match crate::postcard::header_from_postcard(
                header,
            ) {
                Ok((version, base)) => if version == 1 {
                    opened == OpenView::Opened(base, tail)
                } else {
                    opened == OpenView::WrongVersion(version)
                },
                Err(message) => opened == OpenView::Undecodable(message),
            }
        }),
{
    let bytes = start + crate::wal::framed(header) + tail;
    crate::wal::frame_starts_with_len(header, tail);
    assert(bytes.take(8) =~= start);
    assert(bytes.skip(8) =~= crate::wal::framed(header) + tail);
    if starts_as_log(start) {
        assert(start =~= crate::wal::wal_magic());
    }
}

/// A log that ends within its header is refused.
pub proof fn cut_off_headers_are_noticed(start: Seq<u8>, header: Seq<u8>, written: int)
    requires
        starts_as_log(start),
        start.len() == 8,
        header.len() <= 1_000_000,
        0 <= written < 12 + header.len(),
    ensures
        ({
            let opened = crate::wal::opened(
                (start + crate::wal::framed(header)).take(written),
            );
            if written < 8 {
                opened == OpenView::NoMagic
            } else if written < 12 {
                opened == OpenView::NoLength
            } else {
                opened == OpenView::NoHeader
            }
        }),
{
    let whole = start + crate::wal::framed(header);
    let bytes = whole.take(written);
    crate::wal::frame_starts_with_len(header, Seq::empty());
    assert(crate::wal::framed(header) + Seq::<u8>::empty() =~= crate::wal::framed(header));
    if written >= 8 {
        assert(bytes.take(8) =~= crate::wal::wal_magic());
        if written >= 12 {
            assert(bytes.skip(8).take(4) =~= crate::wal::framed(header).take(4));
        }
    }
}

} // verus!
