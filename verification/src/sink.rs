use vstd::prelude::*;

verus! {

#[verifier::external_type_specification]
#[verifier::external_body]
pub struct ExIoError(std::io::Error);

/// A destination for bytes: the only thing a document writer asks of its output.
///
/// A sink that is verified also describes itself: it sets `obeys_sink_spec`,
/// and `written` is then the sequence of bytes it has accepted so far. A sink
/// that leaves the defaults in place promises nothing, and nothing is claimed
/// about what reaches it beyond the bytes handed to `write_all`.
pub trait Sink {
    /// Whether `written` models this kind of sink.
    open spec fn obeys_sink_spec() -> bool {
        false
    }

    /// Whether `write_all` succeeds on every input.
    open spec fn never_fails() -> bool {
        false
    }

    /// The bytes accepted so far, oldest first.
    open spec fn written(&self) -> Seq<u8> {
        Seq::empty()
    }

    /// Hands all of `bytes` to the sink, or reports the failure of the
    /// underlying device. After a failure some prefix of `bytes` may have been
    /// accepted.
    fn write_all(&mut self, bytes: &[u8]) -> (r: Result<(), std::io::Error>)
        ensures
            Self::obeys_sink_spec() ==> accepted(
                old(self).written(),
                final(self).written(),
                bytes@,
                r is Ok,
            ),
            Self::never_fails() ==> r is Ok,
    ;
}

/// How the contents of a modelled sink change when it is handed `bytes`:
/// on success they grow by exactly `bytes`, on failure by some prefix of it.
pub open spec fn accepted(before: Seq<u8>, after: Seq<u8>, bytes: Seq<u8>, ok: bool) -> bool {
    if ok {
        after == before + bytes
    } else {
        before.is_prefix_of(after) && after.is_prefix_of(before + bytes)
    }
}

/// Appends `bytes` to `buf`.
pub(crate) fn append(buf: &mut Vec<u8>, bytes: &[u8])
    ensures
        final(buf)@ == old(buf)@ + bytes@,
{
    buf.extend_from_slice(bytes);
}

/// A growable in-memory buffer accepts everything.
impl Sink for Vec<u8> {
    open spec fn obeys_sink_spec() -> bool {
        true
    }

    open spec fn never_fails() -> bool {
        true
    }

    open spec fn written(&self) -> Seq<u8> {
        self@
    }

    fn write_all(&mut self, bytes: &[u8]) -> (r: Result<(), std::io::Error>) {
        append(self, bytes);
        Ok(())
    }
}

} // verus!
