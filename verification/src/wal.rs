//! The write-ahead log (WAL) for incremental cache persistence.
//!
//! A log stands beside a snapshot of the cache and records what changed after it, so that a save
//! need not rewrite everything. The log is a string of bytes: the magic bytes, the header, then
//! the entries, the header and each entry preceded by its length in four little-endian bytes.
//!
//! Interned values are not recorded in the log; they are saved in snapshots only.
use crate::error::{cache_error, PicanteError, PicanteResult};
use crate::key::same_bytes;
use crate::postcard::{decode_entry, decode_header, encode_entry, encode_header, WireEntry};
#[allow(unused_imports)]
use crate::postcard::WireEntryView;
use crate::text::push_decimal;
use std::sync::Arc;
use vstd::bytes::{u32_from_le_bytes, u32_to_le_bytes};
use vstd::prelude::*;
use vstd::slice::slice_subrange;

verus! {

/// Format version of the log.
pub const WAL_FORMAT_VERSION: u32 = 1;

/// The longest header that is read.
pub const MAX_HEADER_LEN: u32 = 1_000_000;

/// The longest entry that is read.
pub const MAX_ENTRY_LEN: u32 = 100_000_000;

/// The bytes that every log starts with: `PICANTE` and a zero.
pub open spec fn wal_magic() -> Seq<u8> {
    seq![80u8, 73u8, 67u8, 65u8, 78u8, 84u8, 69u8, 0u8]
}

fn magic_bytes() -> (r: Vec<u8>)
    ensures
        r@ == wal_magic(),
{
    let r: Vec<u8> = vec![80u8, 73u8, 67u8, 65u8, 78u8, 84u8, 69u8, 0u8];
    assert(r@ =~= wal_magic());
    r
}

/// Header at the start of every log.
#[derive(Debug, Clone)]
pub struct WalHeader {
    /// Format version for compatibility checking.
    pub format_version: u32,
    /// The revision of the base snapshot this log builds upon.
    pub base_revision: u64,
}

/// A single entry in the write-ahead log.
#[derive(Debug, Clone)]
pub struct WalEntry {
    /// The revision when this change occurred.
    pub revision: u64,
    /// The ingredient kind that owns this entry.
    pub kind_id: u32,
    /// The operation performed.
    pub operation: WalOperation,
}

/// Operations that can be recorded in the log.
#[derive(Debug, Clone)]
pub enum WalOperation {
    /// Insert or update a key-value pair.
    Put {
        /// Encoded key.
        key: Vec<u8>,
        /// Encoded value.
        value: Vec<u8>,
    },
    /// Delete a key.
    Delete {
        /// Encoded key.
        key: Vec<u8>,
    },
}

impl View for WalEntry {
    type V = WireEntryView;

    open spec fn view(&self) -> WireEntryView {
        (
            self.revision,
            self.kind_id,
            match self.operation {
                WalOperation::Put { key, value } => Ok((key@, value@)),
                WalOperation::Delete { key } => Err(key@),
            },
        )
    }
}

impl WalEntry {
    fn into_wire(self) -> (r: WireEntry)
        ensures
            crate::postcard::entry_view(r) == self@,
    {
        let operation = match self.operation {
            WalOperation::Put { key, value } => Ok((key, value)),
            WalOperation::Delete { key } => Err(key),
        };
        (self.revision, self.kind_id, operation)
    }

    fn from_wire(wire: WireEntry) -> (r: WalEntry)
        ensures
            r@ == crate::postcard::entry_view(wire),
    {
        let operation = match wire.2 {
            Ok((key, value)) => WalOperation::Put { key, value },
            Err(key) => WalOperation::Delete { key },
        };
        WalEntry { revision: wire.0, kind_id: wire.1, operation }
    }
}

/// A string of bytes behind its length in four little-endian bytes. Of a length that does not fit,
/// the lower 32 bits are written.
pub open spec fn framed(bytes: Seq<u8>) -> Seq<u8> {
    vstd::bytes::spec_u32_to_le_bytes(bytes.len() as u32) + bytes
}

fn push_framed(out: &mut Vec<u8>, bytes: &[u8])
    ensures
        final(out)@ == old(out)@ + framed(bytes@),
{
    #[verifier::truncate]
    let len: u32 = bytes.len() as u32;
    let mut prefix: Vec<u8> = u32_to_le_bytes(len);
    out.append(&mut prefix);
    out.extend_from_slice(bytes);
    assert(out@ =~= old(out)@ + framed(bytes@));
}

/// The encoding of the header of a log.
pub open spec fn header_of(base_revision: u64) -> Seq<u8> {
    crate::postcard::header_bytes((WAL_FORMAT_VERSION, base_revision))
}

/// What a log holds before its first entry.
pub open spec fn preamble(base_revision: u64) -> Seq<u8> {
    wal_magic() + framed(header_of(base_revision))
}

/// What can be seen of a log that is being written.
#[verifier::ext_equal]
pub ghost struct LogView {
    /// The revision of the base snapshot.
    pub base_revision: u64,
    /// Bytes that were flushed and are still to be taken.
    pub flushed: Seq<u8>,
    /// Bytes that wait for a flush.
    pub buffered: Seq<u8>,
    /// Entries among the buffered bytes.
    pub entries_since_flush: nat,
    /// Entries after which the log flushes by itself.
    pub threshold: nat,
}

impl LogView {
    /// The log after a flush.
    pub open spec fn after_flush(self) -> LogView {
        LogView {
            flushed: self.flushed + self.buffered,
            buffered: Seq::empty(),
            entries_since_flush: 0,
            ..self
        }
    }

    /// The log once the bytes that go to the file were handed out.
    pub open spec fn after_taking(self, bytes: Seq<u8>) -> LogView {
        LogView { flushed: self.flushed.skip(bytes.len() as int), ..self }
    }

    /// The log after an entry with the given encoding was appended.
    pub open spec fn appended(self, entry: Seq<u8>) -> LogView {
        let longer = LogView {
            buffered: self.buffered + framed(entry),
            entries_since_flush: self.entries_since_flush + 1,
            ..self
        };
        if longer.entries_since_flush >= self.threshold {
            longer.after_flush()
        } else {
            longer
        }
    }

    /// Everything that was written and is still to be taken.
    pub open spec fn bytes(self) -> Seq<u8> {
        self.flushed + self.buffered
    }
}

/// The log once entries with the given encodings were appended, one after the other.
pub open spec fn appended_all(log: LogView, entries: Seq<Seq<u8>>) -> LogView
    decreases entries.len(),
{
    if entries.len() == 0 {
        log
    } else {
        appended_all(log, entries.drop_last()).appended(entries.last())
    }
}

/// The frames of several entries, one after the other.
pub open spec fn all_framed(entries: Seq<Seq<u8>>) -> Seq<u8>
    decreases entries.len(),
{
    if entries.len() == 0 {
        Seq::empty()
    } else {
        all_framed(entries.drop_last()) + framed(entries.last())
    }
}

/// The log is append-only: what was written before stays in front, each entry follows in its
/// frame, and however many entries were appended, fewer than the threshold wait for a flush.
pub proof fn log_is_append_only(log: LogView, entries: Seq<Seq<u8>>)
    ensures
        ({
            let after = appended_all(log, entries);
            &&& after.bytes() == log.bytes() + all_framed(entries)
            &&& after.base_revision == log.base_revision
            &&& after.threshold == log.threshold
            &&& entries.len() > 0 && log.threshold > 0 ==> after.entries_since_flush
                < log.threshold
            &&& entries.len() > 0 && log.threshold == 0 ==> after.buffered.len() == 0
        }),
    decreases entries.len(),
{
    if entries.len() == 0 {
        assert(log.bytes() + all_framed(entries) =~= log.bytes());
    } else {
        log_is_append_only(log, entries.drop_last());
        let before = appended_all(log, entries.drop_last());
        assert(before.appended(entries.last()).bytes() =~= before.bytes() + framed(
            entries.last(),
        ));
        assert(appended_all(log, entries).bytes() =~= log.bytes() + all_framed(entries));
    }
}

/// Writer for append-only log operations.
///
/// Entries are buffered and flushed in batches. What was flushed is taken with
/// [`WalWriter::take_flushed`] and goes to the end of the log's file.
pub struct WalWriter {
    flushed: Vec<u8>,
    buffered: Vec<u8>,
    base_revision: u64,
    entries_since_flush: usize,
    /// Flush after this many entries.
    pub auto_flush_threshold: usize,
}

impl WalWriter {
    /// Entries after which a log flushes by itself, unless another number was asked for.
    pub const DEFAULT_AUTO_FLUSH_THRESHOLD: usize = 100;

    /// The log as far as it is still held here.
    pub closed spec fn log(&self) -> LogView {
        LogView {
            base_revision: self.base_revision,
            flushed: self.flushed@,
            buffered: self.buffered@,
            entries_since_flush: self.entries_since_flush as nat,
            threshold: self.auto_flush_threshold as nat,
        }
    }

    /// The number of waiting entries can still be counted.
    pub closed spec fn wf(&self) -> bool {
        self.entries_since_flush < usize::MAX
    }

    /// Start a log with the default threshold.
    pub fn create(base_revision: u64) -> (r: PicanteResult<Self>)
        ensures
            created(r, base_revision, Self::DEFAULT_AUTO_FLUSH_THRESHOLD),
    {
        WalWriter::create_with_threshold(base_revision, Self::DEFAULT_AUTO_FLUSH_THRESHOLD)
    }

    /// Start a log that flushes by itself after `auto_flush_threshold` entries.
    ///
    /// The magic bytes and the header are flushed at once. Lower thresholds lose less in a crash,
    /// higher ones write less often.
    pub fn create_with_threshold(base_revision: u64, auto_flush_threshold: usize) -> (r:
        PicanteResult<Self>)
        ensures
            created(r, base_revision, auto_flush_threshold),
    {
        let header = match encode_header(&(WAL_FORMAT_VERSION, base_revision)) {
            Ok(bytes) => bytes,
            Err(message) => {
                return Err(Arc::new(PicanteError::Encode { what: "WAL header", message }));
            },
        };
        let mut flushed: Vec<u8> = magic_bytes();
        push_framed(&mut flushed, header.as_slice());
        let r = WalWriter {
            flushed,
            buffered: Vec::new(),
            base_revision,
            entries_since_flush: 0,
            auto_flush_threshold,
        };
        assert(r.log().buffered =~= Seq::empty());
        Ok(r)
    }

    /// Append an entry to the log.
    ///
    /// The entry is buffered, and flushed with the others once the threshold is reached.
    pub fn append(&mut self, entry: WalEntry) -> (r: PicanteResult<()>)
        requires
            old(self).wf(),
        ensures
            final(self).wf(),
            r is Ok,
            final(self).log() == old(self).log().appended(crate::postcard::entry_bytes(entry@)),
    {
        let wire: WireEntry = entry.into_wire();
        let bytes = match encode_entry(&wire) {
            Ok(bytes) => bytes,
            Err(message) => {
                return Err(Arc::new(PicanteError::Encode { what: "WAL entry", message }));
            },
        };
        push_framed(&mut self.buffered, bytes.as_slice());
        self.entries_since_flush = self.entries_since_flush + 1;
        if self.entries_since_flush >= self.auto_flush_threshold {
            self.flush();
        }
        Ok(())
    }

    /// Flush the buffered entries.
    pub fn flush(&mut self)
        ensures
            final(self).wf(),
            final(self).log() == old(self).log().after_flush(),
    {
        self.flushed.append(&mut self.buffered);
        self.entries_since_flush = 0;
        assert(self.log() =~= old(self).log().after_flush());
    }

    /// Take what was flushed since the last call.
    pub fn take_flushed(&mut self) -> (r: Vec<u8>)
        requires
            old(self).wf(),
        ensures
            final(self).wf(),
            r@ == old(self).log().flushed,
            final(self).log() == (LogView { flushed: Seq::empty(), ..old(self).log() }),
            final(self).log() == old(self).log().after_taking(r@),
    {
        let mut taken: Vec<u8> = Vec::new();
        taken.append(&mut self.flushed);
        assert(taken@ =~= old(self).log().flushed);
        assert(self.log() =~= (LogView { flushed: Seq::empty(), ..old(self).log() }));
        taken
    }

    /// The base revision this log builds upon.
    pub fn base_revision(&self) -> (r: u64)
        ensures
            r == self.log().base_revision,
    {
        self.base_revision
    }
}

/// Whether starting a log came out as it must: the preamble is flushed and nothing waits.
pub open spec fn created(r: PicanteResult<WalWriter>, base_revision: u64, threshold: usize) -> bool {
    &&& r matches Ok(writer)
    &&& writer.wf()
    &&& writer.log() == (LogView {
        base_revision,
        flushed: preamble(base_revision),
        buffered: Seq::empty(),
        entries_since_flush: 0,
        threshold: threshold as nat,
    })
}

/// Bytes in decimal, with commas between them.
pub open spec fn byte_items(bytes: Seq<u8>) -> Seq<char>
    decreases bytes.len(),
{
    if bytes.len() == 0 {
        Seq::empty()
    } else if bytes.len() == 1 {
        crate::text::decimal(bytes[0] as nat)
    } else {
        byte_items(bytes.drop_last()) + ", "@ + crate::text::decimal(bytes.last() as nat)
    }
}

/// Bytes as a list in square brackets.
pub open spec fn byte_list(bytes: Seq<u8>) -> Seq<char> {
    "["@ + byte_items(bytes) + "]"@
}

fn push_byte_list(out: &mut String, bytes: &[u8])
    ensures
        final(out)@ == old(out)@ + byte_list(bytes@),
{
    let ghost start = out@;
    out.append("[");
    let mut i: usize = 0;
    while i < bytes.len()
        invariant
            i <= bytes@.len(),
            out@ == start + "["@ + byte_items(bytes@.take(i as int)),
        decreases bytes@.len() - i,
    {
        let ghost longer = bytes@.take(i + 1);
        assert(longer.drop_last() =~= bytes@.take(i as int));
        assert(longer.last() == bytes@[i as int]);
        if i > 0 {
            out.append(", ");
        } else {
            assert(longer[0] == bytes@[0]);
        }
        push_decimal(out, bytes[i] as u64);
        assert(out@ =~= start + "["@ + byte_items(longer));
        i = i + 1;
    }
    out.append("]");
    assert(bytes@.take(i as int) =~= bytes@);
    assert(out@ =~= start + byte_list(bytes@));
}

/// What reading the start of a log comes to.
pub ghost enum OpenView {
    /// There are fewer bytes than the magic bytes.
    NoMagic,
    /// Other bytes stand where the magic bytes should.
    WrongMagic(Seq<u8>),
    /// The header's length is cut off.
    NoLength,
    /// The header claims to be longer than any header is.
    TooLong(u32),
    /// The header is cut off.
    NoHeader,
    /// The header cannot be decoded.
    Undecodable(Seq<char>),
    /// The log has another format version.
    WrongVersion(u32),
    /// The log builds upon this revision, and its entries are in these bytes.
    Opened(u64, Seq<u8>),
}

/// The length that a frame starts with.
pub open spec fn frame_len(bytes: Seq<u8>) -> u32 {
    vstd::bytes::spec_u32_from_le_bytes(bytes.take(4))
}

/// What reading the start of `bytes` comes to.
pub open spec fn opened(bytes: Seq<u8>) -> OpenView {
    let rest = bytes.skip(8);
    if bytes.len() < 8 {
        OpenView::NoMagic
    } else if bytes.take(8) != wal_magic() {
        OpenView::WrongMagic(bytes.take(8))
    } else if rest.len() < 4 {
        OpenView::NoLength
    } else if frame_len(rest) > MAX_HEADER_LEN {
        OpenView::TooLong(frame_len(rest))
    } else if rest.len() - 4 < frame_len(rest) {
        OpenView::NoHeader
    } else {
        match crate::postcard::header_from_postcard(rest.subrange(4, 4 + frame_len(rest))) {
            Err(message) => OpenView::Undecodable(message),
            Ok((version, base_revision)) => if version != WAL_FORMAT_VERSION {
                OpenView::WrongVersion(version)
            } else {
                OpenView::Opened(base_revision, rest.skip(4 + frame_len(rest)))
            },
        }
    }
}

/// Text of the error for a frame that claims to be longer than is allowed.
pub open spec fn too_long_text(what: Seq<char>, len: u32, max: u32) -> Seq<char> {
    "WAL "@ + what + " length ("@ + crate::text::decimal(len as nat)
        + " bytes) exceeds maximum allowed ("@ + crate::text::decimal(max as nat)
        + " bytes) - file may be corrupted"@
}

fn too_long(what: &str, len: u32, max: u32) -> (r: Arc<PicanteError>)
    ensures
        crate::error::is_cache_error(*r, too_long_text(what@, len, max)),
{
    let mut text: String = String::new();
    text.append("WAL ");
    text.append(what);
    text.append(" length (");
    push_decimal(&mut text, len as u64);
    text.append(" bytes) exceeds maximum allowed (");
    push_decimal(&mut text, max as u64);
    text.append(" bytes) - file may be corrupted");
    assert(text@ =~= too_long_text(what@, len, max));
    cache_error(text)
}

/// Text of the error for bytes that are cut off.
pub open spec fn cut_off_text(what: Seq<char>) -> Seq<char> {
    "Failed to read WAL "@ + what + ": failed to fill whole buffer"@
}

fn cut_off(what: &str) -> (r: Arc<PicanteError>)
    ensures
        crate::error::is_cache_error(*r, cut_off_text(what@)),
{
    let mut text: String = String::new();
    text.append("Failed to read WAL ");
    text.append(what);
    text.append(": failed to fill whole buffer");
    assert(text@ =~= cut_off_text(what@));
    cache_error(text)
}

/// Text of the error for a log that starts with other bytes.
pub open spec fn wrong_magic_text(found: Seq<u8>) -> Seq<char> {
    "Invalid WAL magic bytes (expected "@ + byte_list(wal_magic()) + ", got "@ + byte_list(found)
        + ")"@
}

fn wrong_magic(found: &[u8]) -> (r: Arc<PicanteError>)
    ensures
        crate::error::is_cache_error(*r, wrong_magic_text(found@)),
{
    let mut text: String = String::new();
    text.append("Invalid WAL magic bytes (expected ");
    let expected: Vec<u8> = magic_bytes();
    push_byte_list(&mut text, expected.as_slice());
    text.append(", got ");
    push_byte_list(&mut text, found);
    text.append(")");
    assert(text@ =~= wrong_magic_text(found@));
    cache_error(text)
}

/// Text of the error for a log of another format version.
pub open spec fn wrong_version_text(version: u32) -> Seq<char> {
    "Unsupported WAL format version (expected "@ + crate::text::decimal(WAL_FORMAT_VERSION as nat)
        + ", got "@ + crate::text::decimal(version as nat) + ")"@
}

fn wrong_version(version: u32) -> (r: Arc<PicanteError>)
    ensures
        crate::error::is_cache_error(*r, wrong_version_text(version)),
{
    let mut text: String = String::new();
    text.append("Unsupported WAL format version (expected ");
    push_decimal(&mut text, WAL_FORMAT_VERSION as u64);
    text.append(", got ");
    push_decimal(&mut text, version as u64);
    text.append(")");
    assert(text@ =~= wrong_version_text(version));
    cache_error(text)
}

/// Whether an error is the one for a log that cannot be opened as `view` says.
pub open spec fn open_refused(error: PicanteError, view: OpenView) -> bool {
    match view {
        OpenView::NoMagic => crate::error::is_cache_error(error, cut_off_text("magic bytes"@)),
        OpenView::WrongMagic(found) => crate::error::is_cache_error(
            error,
            wrong_magic_text(found),
        ),
        OpenView::NoLength => crate::error::is_cache_error(
            error,
            cut_off_text("header length"@),
        ),
        OpenView::TooLong(len) => crate::error::is_cache_error(
            error,
            too_long_text("header"@, len, MAX_HEADER_LEN),
        ),
        OpenView::NoHeader => crate::error::is_cache_error(error, cut_off_text("header"@)),
        OpenView::Undecodable(message) => crate::error::is_decode_error(
            error,
            "WAL header"@,
            message,
        ),
        OpenView::WrongVersion(version) => crate::error::is_cache_error(
            error,
            wrong_version_text(version),
        ),
        OpenView::Opened(_, _) => false,
    }
}

/// Whether opening a log came out as `view` says.
pub open spec fn opened_as(r: PicanteResult<WalReader>, view: OpenView) -> bool {
    match r {
        Ok(reader) => {
            &&& view matches OpenView::Opened(base_revision, rest)
            &&& reader.wf()
            &&& reader.head() == WalHeader { format_version: WAL_FORMAT_VERSION, base_revision }
            &&& reader.rest() == rest
        },
        Err(error) => open_refused(*error, view),
    }
}

/// Whether opening `bytes` reads back what [`WalWriter::create`] wrote: a log that starts with the
/// preamble for some base revision is opened, with that revision, at what follows the preamble.
pub open spec fn preamble_is_read_back(bytes: Seq<u8>, r: PicanteResult<WalReader>) -> bool {
    forall|base_revision: u64, tail: Seq<u8>|
        bytes == #[trigger] (preamble(base_revision) + tail) ==> opened_as(
            r,
            OpenView::Opened(base_revision, tail),
        )
}

/// What reading the next entry comes to.
pub ghost enum WalRead {
    /// There are no more entries.
    End,
    /// The entry claims to be longer than any entry is.
    TooLong(u32),
    /// The entry is cut off.
    CutOff,
    /// The entry cannot be decoded.
    Undecodable(Seq<char>),
    /// An entry.
    Entry(WireEntryView),
}

/// What reading an entry from the start of `rest` comes to, and what is left to read after it. A
/// length that is cut off counts as the end, since a crash may leave one behind.
pub open spec fn next_in(rest: Seq<u8>) -> (WalRead, Seq<u8>) {
    let len = frame_len(rest);
    if rest.len() < 4 {
        (WalRead::End, Seq::empty())
    } else if len > MAX_ENTRY_LEN {
        (WalRead::TooLong(len), rest.skip(4))
    } else if rest.len() - 4 < len {
        (WalRead::CutOff, Seq::empty())
    } else {
        (
            match crate::postcard::entry_from_postcard(rest.subrange(4, 4 + len)) {
                Err(message) => WalRead::Undecodable(message),
                Ok(entry) => WalRead::Entry(entry),
            },
            rest.skip(4 + len),
        )
    }
}

/// Everything that can be read from `rest`, up to the end.
pub open spec fn all_in(rest: Seq<u8>) -> Seq<WalRead>
    decreases rest.len(),
{
    let (read, tail) = next_in(rest);
    if read is End || tail.len() >= rest.len() {
        Seq::empty()
    } else {
        seq![read] + all_in(tail)
    }
}

/// Whether reading an entry came out as `read` says.
pub open spec fn read_as(r: PicanteResult<Option<WalEntry>>, read: WalRead) -> bool {
    match read {
        WalRead::End => r matches Ok(None),
        WalRead::Entry(view) => r matches Ok(Some(entry)) && entry@ == view,
        WalRead::TooLong(len) => r matches Err(e) && crate::error::is_cache_error(
            *e,
            too_long_text("entry"@, len, MAX_ENTRY_LEN),
        ),
        WalRead::CutOff => r matches Err(e) && crate::error::is_cache_error(
            *e,
            cut_off_text("entry"@),
        ),
        WalRead::Undecodable(message) => r matches Err(e) && crate::error::is_decode_error(
            *e,
            "WAL entry"@,
            message,
        ),
    }
}

/// Whether an item of [`WalReader::entries`] is what `read` says.
pub open spec fn item_as(item: PicanteResult<WalEntry>, read: WalRead) -> bool {
    match item {
        Ok(entry) => read_as(Ok(Some(entry)), read),
        Err(error) => read_as(Err(error), read),
    }
}

/// Whether `bytes` is the encoding of an entry that the reader takes.
pub open spec fn encodes_entry(entry: WireEntryView, bytes: Seq<u8>) -> bool {
    &&& crate::postcard::encodes_entry(entry, bytes)
    &&& bytes.len() <= MAX_ENTRY_LEN
}

/// Whether reading from `rest` gives back the entry that was appended: where `rest` starts with
/// an entry's frame, that entry is read, and what follows the frame is left to read.
pub open spec fn entry_is_read_back(
    rest: Seq<u8>,
    r: PicanteResult<Option<WalEntry>>,
    left: Seq<u8>,
) -> bool {
    forall|entry: WireEntryView, bytes: Seq<u8>, tail: Seq<u8>|
        #[trigger] encodes_entry(entry, bytes) && rest == #[trigger] (framed(bytes) + tail)
            ==> read_as(r, WalRead::Entry(entry)) && left == tail
}

/// Whether `frames` are the encodings of `entries`, one for one.
pub open spec fn encodes_entries(entries: Seq<WireEntryView>, frames: Seq<Seq<u8>>) -> bool {
    &&& entries.len() == frames.len()
    &&& forall|i: int| 0 <= i < entries.len() ==> #[trigger] encodes_entry(entries[i], frames[i])
}

/// Whether reading all of `rest` gives back exactly the entries that were appended, in order.
pub open spec fn entries_are_read_back(rest: Seq<u8>, r: Seq<PicanteResult<WalEntry>>) -> bool {
    forall|entries: Seq<WireEntryView>, frames: Seq<Seq<u8>>|
        #[trigger] encodes_entries(entries, frames) && rest == all_framed(frames) ==> {
            &&& r.len() == entries.len()
            &&& forall|i: int|
                0 <= i < entries.len() ==> item_as(#[trigger] r[i], WalRead::Entry(entries[i]))
        }
}

/// A frame starts with the length of what it holds, which stands behind that.
pub proof fn frame_starts_with_len(bytes: Seq<u8>, tail: Seq<u8>)
    requires
        bytes.len() <= u32::MAX,
    ensures
        ({
            let whole = framed(bytes) + tail;
            &&& whole.len() == 4 + bytes.len() + tail.len()
            &&& frame_len(whole) == bytes.len()
            &&& whole.subrange(4, 4 + bytes.len() as int) == bytes
            &&& whole.skip(4 + bytes.len() as int) == tail
        }),
{
    vstd::bytes::lemma_auto_spec_u32_to_from_le_bytes();
    let prefix = vstd::bytes::spec_u32_to_le_bytes(bytes.len() as u32);
    let whole = framed(bytes) + tail;
    assert(prefix.len() == 4);
    assert(whole.take(4) =~= prefix);
    assert(whole.subrange(4, 4 + bytes.len() as int) =~= bytes);
    assert(whole.skip(4 + bytes.len() as int) =~= tail);
}

/// The frames of several entries start with that of the first.
pub proof fn all_framed_first(frames: Seq<Seq<u8>>)
    requires
        frames.len() > 0,
    ensures
        all_framed(frames) == framed(frames[0]) + all_framed(frames.skip(1)),
    decreases frames.len(),
{
    let shorter = frames.drop_last();
    if shorter.len() == 0 {
        assert(frames.skip(1) =~= Seq::empty());
        assert(all_framed(shorter) =~= Seq::empty());
        assert(all_framed(frames) =~= framed(frames[0]) + all_framed(frames.skip(1)));
    } else {
        all_framed_first(shorter);
        assert(frames.skip(1).drop_last() =~= shorter.skip(1));
        assert(frames.skip(1).last() == frames.last());
        assert(all_framed(frames) =~= framed(frames[0]) + all_framed(frames.skip(1)));
    }
}

/// Reader for replaying the entries of a log.
#[derive(Debug)]
pub struct WalReader {
    bytes: Vec<u8>,
    pos: usize,
    header: WalHeader,
}

impl WalReader {
    /// The reader has not gone past the end.
    pub closed spec fn wf(&self) -> bool {
        self.pos <= self.bytes@.len()
    }

    /// The header of the log.
    pub closed spec fn head(&self) -> WalHeader {
        self.header
    }

    /// What is left to read.
    pub closed spec fn rest(&self) -> Seq<u8> {
        self.bytes@.skip(self.pos as int)
    }

    /// Open a log for reading, given what its file holds.
    pub fn open(bytes: Vec<u8>) -> (r: PicanteResult<Self>)
        ensures
            opened_as(r, opened(bytes@)),
            preamble_is_read_back(bytes@, r),
    {
        let ghost all = bytes@;
        let ghost rest = bytes@.skip(8);
        let len: usize = bytes.len();
        proof {
            assert forall|base_revision: u64, tail: Seq<u8>|
                all == #[trigger] (preamble(base_revision) + tail) implies {
                let header = header_of(base_revision);
                &&& all.len() >= 12 + header.len()
                &&& header.len() <= MAX_HEADER_LEN
                &&& all.take(8) == wal_magic()
                &&& frame_len(rest) == header.len()
                &&& crate::postcard::encodes_header(
                    (WAL_FORMAT_VERSION, base_revision),
                    rest.subrange(4, 4 + frame_len(rest)),
                )
                &&& rest.skip(4 + frame_len(rest)) == tail
            } by {
                let header = header_of(base_revision);
                crate::postcard::header_is_short((WAL_FORMAT_VERSION, base_revision));
                assert(rest =~= framed(header) + tail);
                frame_starts_with_len(header, tail);
                assert(all.take(8) =~= wal_magic());
            }
        }
        if len < 8 {
            return Err(cut_off("magic bytes"));
        }
        let found: &[u8] = slice_subrange(bytes.as_slice(), 0, 8);
        assert(found@ =~= all.take(8));
        let expected: Vec<u8> = magic_bytes();
        if !same_bytes(found, expected.as_slice()) {
            return Err(wrong_magic(found));
        }
        if len - 8 < 4 {
            return Err(cut_off("header length"));
        }
        let prefix: &[u8] = slice_subrange(bytes.as_slice(), 8, 12);
        assert(prefix@ =~= rest.take(4));
        let header_len: u32 = u32_from_le_bytes(prefix);
        if header_len > MAX_HEADER_LEN {
            return Err(too_long("header", header_len, MAX_HEADER_LEN));
        }
        if len - 12 < header_len as usize {
            return Err(cut_off("header"));
        }
        let start: usize = 12 + header_len as usize;
        let header_bytes: &[u8] = slice_subrange(bytes.as_slice(), 12, start);
        assert(header_bytes@ =~= rest.subrange(4, 4 + header_len));
        let header = match decode_header(header_bytes) {
            Ok((format_version, base_revision)) => WalHeader { format_version, base_revision },
            Err(message) => {
                return Err(Arc::new(PicanteError::Decode { what: "WAL header", message }));
            },
        };
        if header.format_version != WAL_FORMAT_VERSION {
            return Err(wrong_version(header.format_version));
        }
        let r = WalReader { bytes, pos: start, header };
        assert(r.rest() =~= rest.skip(4 + header_len));
        Ok(r)
    }

    /// The header of the log.
    pub fn header(&self) -> (r: &WalHeader)
        ensures
            *r == self.head(),
    {
        &self.header
    }

    /// Read the next entry from the log, or `None` at its end.
    pub fn next_entry(&mut self) -> (r: PicanteResult<Option<WalEntry>>)
        requires
            old(self).wf(),
        ensures
            final(self).wf(),
            final(self).head() == old(self).head(),
            read_as(r, next_in(old(self).rest()).0),
            final(self).rest() == next_in(old(self).rest()).1,
            entry_is_read_back(old(self).rest(), r, final(self).rest()),
    {
        let ghost rest = self.rest();
        let left: usize = self.bytes.len() - self.pos;
        proof {
            assert forall|bytes: Seq<u8>, tail: Seq<u8>|
                bytes.len() <= MAX_ENTRY_LEN && rest == #[trigger] (framed(bytes)
                    + tail) implies {
                &&& rest.len() >= 4 + bytes.len()
                &&& frame_len(rest) == bytes.len()
                &&& rest.subrange(4, 4 + frame_len(rest)) == bytes
                &&& rest.skip(4 + frame_len(rest)) == tail
            } by {
                frame_starts_with_len(bytes, tail);
            }
        }
        if left < 4 {
            self.pos = self.bytes.len();
            assert(self.rest() =~= Seq::empty());
            return Ok(None);
        }
        let prefix: &[u8] = slice_subrange(self.bytes.as_slice(), self.pos, self.pos + 4);
        assert(prefix@ =~= rest.take(4));
        let entry_len: u32 = u32_from_le_bytes(prefix);
        self.pos = self.pos + 4;
        assert(self.rest() =~= rest.skip(4));
        if entry_len > MAX_ENTRY_LEN {
            return Err(too_long("entry", entry_len, MAX_ENTRY_LEN));
        }
        if left - 4 < entry_len as usize {
            self.pos = self.bytes.len();
            assert(self.rest() =~= Seq::empty());
            return Err(cut_off("entry"));
        }
        let end: usize = self.pos + entry_len as usize;
        let entry_bytes: &[u8] = slice_subrange(self.bytes.as_slice(), self.pos, end);
        assert(entry_bytes@ =~= rest.subrange(4, 4 + entry_len));
        let decoded = decode_entry(entry_bytes);
        self.pos = end;
        assert(self.rest() =~= rest.skip(4 + entry_len));
        match decoded {
            Ok(wire) => Ok(Some(WalEntry::from_wire(wire))),
            Err(message) => Err(Arc::new(PicanteError::Decode { what: "WAL entry", message })),
        }
    }

    /// Read all the entries that are left, with an error in the place of each that cannot be read.
    pub fn entries(&mut self) -> (r: Vec<PicanteResult<WalEntry>>)
        requires
            old(self).wf(),
        ensures
            final(self).wf(),
            final(self).head() == old(self).head(),
            final(self).rest().len() == 0,
            r@.len() == all_in(old(self).rest()).len(),
            forall|i: int|
                0 <= i < r@.len() ==> item_as(#[trigger] r@[i], all_in(old(self).rest())[i]),
            entries_are_read_back(old(self).rest(), r@),
    {
        let ghost start = self.rest();
        let mut items: Vec<PicanteResult<WalEntry>> = Vec::new();
        proof {
            assert forall|entries: Seq<WireEntryView>, frames: Seq<Seq<u8>>|
                #[trigger] encodes_entries(entries, frames) && start == all_framed(
                    frames,
                ) implies start == all_framed(frames.skip(0)) by {
                assert(frames.skip(0) =~= frames);
            }
        }
        loop
            invariant
                self.wf(),
                start == old(self).rest(),
                self.head() == old(self).head(),
                all_in(start).len() == items@.len() + all_in(self.rest()).len(),
                forall|i: int|
                    0 <= i < items@.len() ==> item_as(#[trigger] items@[i], all_in(start)[i]),
                forall|i: int|
                    0 <= i < all_in(self.rest()).len() ==> all_in(start)[items@.len() + i]
                        == #[trigger] all_in(self.rest())[i],
                forall|entries: Seq<WireEntryView>, frames: Seq<Seq<u8>>|
                    #[trigger] encodes_entries(entries, frames) && start == all_framed(frames) ==> {
                        &&& items@.len() <= entries.len()
                        &&& self.rest() == all_framed(frames.skip(items@.len() as int))
                        &&& forall|i: int|
                            0 <= i < items@.len() ==> item_as(
                                #[trigger] items@[i],
                                WalRead::Entry(entries[i]),
                            )
                    },
            decreases self.rest().len(),
        {
            let ghost rest = self.rest();
            let ghost done = items@;
            let next = self.next_entry();
            let ghost left = self.rest();
            proof {
                assert forall|entries: Seq<WireEntryView>, frames: Seq<Seq<u8>>|
                    #[trigger] encodes_entries(entries, frames) && start == all_framed(
                        frames,
                    ) implies {
                    if done.len() < entries.len() {
                        &&& read_as(next, WalRead::Entry(entries[done.len() as int]))
                        &&& left == all_framed(frames.skip(done.len() as int + 1))
                    } else {
                        rest.len() == 0
                    }
                } by {
                    let at = done.len() as int;
                    let waiting = frames.skip(at);
                    if at < entries.len() {
                        all_framed_first(waiting);
                        assert(waiting.skip(1) =~= frames.skip(at + 1));
                        assert(encodes_entry(entries[at], frames[at]));
                        assert(rest == framed(frames[at]) + all_framed(frames.skip(at + 1)));
                    } else {
                        assert(waiting =~= Seq::empty());
                    }
                }
            }
            match next {
                Ok(None) => {
                    assert(all_in(rest).len() == 0);
                    assert(entries_are_read_back(start, items@));
                    return items;
                },
                Ok(Some(entry)) => {
                    items.push(Ok(entry));
                },
                Err(error) => {
                    items.push(Err(error));
                },
            }
            proof {
                assert(left.len() < rest.len());
                assert(all_in(rest) =~= seq![next_in(rest).0] + all_in(left));
                assert(all_in(start)[done.len() as int] == all_in(rest)[0]);
                assert(item_as(items@[done.len() as int], all_in(start)[done.len() as int]));
                assert forall|i: int| 0 <= i < all_in(left).len() implies all_in(start)[items@.len()
                    + i] == #[trigger] all_in(left)[i] by {
                    assert(all_in(rest)[i + 1] == all_in(left)[i]);
                    assert(all_in(start)[done.len() + (i + 1)] == all_in(rest)[i + 1]);
                }
            }
        }
    }
}

} // verus!
