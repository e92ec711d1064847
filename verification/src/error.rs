//! Error types used throughout the library.
use crate::key::{DynKey, QueryKindId};
use crate::text::{push_decimal, push_hex};
use std::sync::Arc;
use vstd::prelude::*;

verus! {

/// Result type used by the library's functions.
pub type PicanteResult<T> = Result<T, Arc<PicanteError>>;

/// A runtime or persistence error.
#[derive(Debug)]
pub enum PicanteError {
    /// A query tried to (directly or indirectly) depend on itself within the same task.
    Cycle {
        /// The query that was requested.
        requested: DynKey,
        /// The query stack at the point the cycle was detected.
        stack: Vec<DynKey>,
    },
    /// Failed to encode a value.
    Encode {
        /// What was being encoded (for diagnostics).
        what: &'static str,
        /// Human-readable error message.
        message: String,
    },
    /// Failed to decode a value.
    Decode {
        /// What was being decoded (for diagnostics).
        what: &'static str,
        /// Human-readable error message.
        message: String,
    },
    /// Cache I/O or format errors.
    Cache {
        /// Human-readable error message.
        message: String,
    },
    /// An interned id was requested but is not present in the interning table.
    MissingInternedValue {
        /// Kind id of the interned ingredient.
        kind: QueryKindId,
        /// Missing id.
        id: u32,
    },
    /// An input value was requested but is not present (missing or removed).
    MissingInputValue {
        /// Kind id of the input ingredient.
        kind: QueryKindId,
        /// Stable hash of the encoded key bytes (for diagnostics).
        key_hash: u64,
    },
    /// A query panicked during execution.
    Panic {
        /// Human-readable panic message (best effort).
        message: String,
    },
}

/// Whether an error says that encoding `what` failed with `message`.
pub open spec fn is_encode_error(error: PicanteError, what: Seq<char>, message: Seq<char>) -> bool {
    error matches PicanteError::Encode { what: w, message: m } && w@ == what && m@ == message
}

/// Whether an error says that decoding `what` failed with `message`.
pub open spec fn is_decode_error(error: PicanteError, what: Seq<char>, message: Seq<char>) -> bool {
    error matches PicanteError::Decode { what: w, message: m } && w@ == what && m@ == message
}

/// Whether an error is a cache error with the given text.
pub open spec fn is_cache_error(error: PicanteError, text: Seq<char>) -> bool {
    error matches PicanteError::Cache { message } && message@ == text
}

pub(crate) fn cache_error(message: String) -> (r: Arc<PicanteError>)
    ensures
        is_cache_error(*r, message@),
{
    Arc::new(PicanteError::Cache { message })
}

/// One line of a cycle report.
pub open spec fn frame_line(frame: DynKey) -> Seq<char> {
    "\n  → kind_"@ + crate::text::decimal(frame.kind.0 as nat) + ", key_"@ + crate::text::hex(
        crate::key::stable_hash_of(frame.key@) as nat,
        16,
    )
}

/// The lines of a cycle report for the frames on the stack; the outermost is marked.
pub open spec fn stack_lines(stack: Seq<DynKey>) -> Seq<char>
    decreases stack.len(),
{
    if stack.len() == 0 {
        Seq::empty()
    } else if stack.len() == 1 {
        frame_line(stack[0]) + "  (initial)"@
    } else {
        stack_lines(stack.drop_last()) + frame_line(stack.last())
    }
}

/// The text shown for an error.
pub open spec fn error_text(e: PicanteError) -> Seq<char> {
    match e {
        PicanteError::Cycle { requested, stack } => "dependency cycle detected"@ + stack_lines(
            stack@,
        ) + frame_line(requested) + "  ← cycle (already in stack)"@,
        PicanteError::Encode { what, message } => "encode "@ + what@ + " failed: "@ + message@,
        PicanteError::Decode { what, message } => "decode "@ + what@ + " failed: "@ + message@,
        PicanteError::Cache { message } => "cache error: "@ + message@,
        PicanteError::MissingInternedValue { kind, id } => "missing interned value (kind "@
            + crate::text::decimal(kind.0 as nat) + ", id "@ + crate::text::decimal(id as nat)
            + ")"@,
        PicanteError::MissingInputValue { kind, key_hash } => "missing input value (kind "@
            + crate::text::decimal(kind.0 as nat) + ", key "@ + crate::text::hex(
            key_hash as nat,
            16,
        ) + ")"@,
        PicanteError::Panic { message } => "query panicked: "@ + message@,
    }
}

fn push_frame_line(out: &mut String, frame: &DynKey)
    ensures
        final(out)@ == old(out)@ + frame_line(*frame),
{
    out.append("\n  → kind_");
    push_decimal(out, frame.kind.0 as u64);
    out.append(", key_");
    push_hex(out, frame.key.hash(), 16);
    assert(out@ =~= old(out)@ + frame_line(*frame));
}

fn push_stack_lines(out: &mut String, stack: &Vec<DynKey>)
    ensures
        final(out)@ == old(out)@ + stack_lines(stack@),
{
    let ghost start = out@;
    let mut i: usize = 0;
    while i < stack.len()
        invariant
            i <= stack@.len(),
            out@ == start + stack_lines(stack@.take(i as int)),
        decreases stack@.len() - i,
    {
        let ghost before = out@;
        let ghost longer = stack@.take(i + 1);
        assert(longer.drop_last() =~= stack@.take(i as int));
        assert(longer.last() == stack@[i as int]);
        push_frame_line(out, &stack[i]);
        if i == 0 {
            out.append("  (initial)");
            assert(longer[0] == stack@[0]);
        }
        assert(out@ =~= start + stack_lines(longer));
        i = i + 1;
    }
    assert(stack@.take(i as int) =~= stack@);
}

impl PicanteError {
    /// The text shown for this error.
    pub fn message(&self) -> (r: String)
        ensures
            r@ == error_text(*self),
    {
        let mut out: String = String::new();
        match self {
            PicanteError::Cycle { requested, stack } => {
                out.append("dependency cycle detected");
                push_stack_lines(&mut out, stack);
                push_frame_line(&mut out, requested);
                out.append("  ← cycle (already in stack)");
            },
            PicanteError::Encode { what, message } => {
                out.append("encode ");
                out.append(what);
                out.append(" failed: ");
                out.append(message.as_str());
            },
            PicanteError::Decode { what, message } => {
                out.append("decode ");
                out.append(what);
                out.append(" failed: ");
                out.append(message.as_str());
            },
            PicanteError::Cache { message } => {
                out.append("cache error: ");
                out.append(message.as_str());
            },
            PicanteError::MissingInternedValue { kind, id } => {
                out.append("missing interned value (kind ");
                push_decimal(&mut out, kind.0 as u64);
                out.append(", id ");
                push_decimal(&mut out, *id as u64);
                out.append(")");
            },
            PicanteError::MissingInputValue { kind, key_hash } => {
                out.append("missing input value (kind ");
                push_decimal(&mut out, kind.0 as u64);
                out.append(", key ");
                push_hex(&mut out, *key_hash, 16);
                out.append(")");
            },
            PicanteError::Panic { message } => {
                out.append("query panicked: ");
                out.append(message.as_str());
            },
        }
        assert(out@ =~= error_text(*self));
        out
    }
}

/// What is shown of a panic whose payload is neither kind of text.
pub open spec fn no_panic_text() -> Seq<char> {
    "non-string panic payload"@
}

/// What is shown of a panic, given its payload as far as that is text: a literal, or else a
/// string.
pub fn panic_message(literal: Option<&str>, text: Option<&String>) -> (r: String)
    ensures
        r@ == (match (literal, text) {
            (Some(literal), _) => literal@,
            (None, Some(text)) => text@,
            (None, None) => no_panic_text(),
        }),
{
    match literal {
        Some(literal) => literal.to_owned(),
        None => match text {
            Some(text) => text.clone(),
            None => "non-string panic payload".to_owned(),
        },
    }
}

} // verus!
