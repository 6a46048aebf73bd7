//! A stream of MPEG-TS packets with its identifier, and the terminator that
//! keeps a stop trigger alive for as long as a stream is read.
use vstd::prelude::*;

verus! {

/// A stream of MPEG-TS packets.
pub struct MpegTsStream<T, S> {
    id: T,
    stream: S,
    decoded: bool,
}

impl<T, S> MpegTsStream<T, S> {
    /// The identifier of the stream.
    pub closed spec fn spec_id(&self) -> T {
        self.id
    }

    /// The stream of packets.
    pub closed spec fn spec_stream(&self) -> S {
        self.stream
    }

    /// Whether the packets are decoded.
    pub closed spec fn spec_decoded(&self) -> bool {
        self.decoded
    }

    /// A stream of packets that are not decoded.
    pub fn new(id: T, stream: S) -> (r: Self)
        ensures
            r.spec_id() == id,
            r.spec_stream() == stream,
            !r.spec_decoded(),
    {
        MpegTsStream { id, stream, decoded: false }
    }

    /// The same stream, marked as decoded.
    pub fn decoded(self) -> (r: Self)
        ensures
            r.spec_id() == self.spec_id(),
            r.spec_stream() == self.spec_stream(),
            r.spec_decoded(),
    {
        let mut s = self;
        s.decoded = true;
        s
    }

    pub fn is_decoded(&self) -> (r: bool)
        ensures
            r == self.spec_decoded(),
    {
        self.decoded
    }

    /// The identifier and the stream of packets.
    pub fn into_parts(self) -> (r: (T, S))
        ensures
            r.0 == self.spec_id(),
            r.1 == self.spec_stream(),
    {
        (self.id, self.stream)
    }
}

impl<T: Clone, S> MpegTsStream<T, S> {
    /// A copy of the identifier.
    pub fn id(&self) -> (r: T)
        ensures
            cloned::<T>(self.spec_id(), r),
    {
        self.id.clone()
    }
}

/// A stream that holds a stop trigger until it is dropped.
pub struct MpegTsStreamTerminator<S, T> {
    inner: S,
    stop_trigger: T,
}

impl<S, T> MpegTsStreamTerminator<S, T> {
    /// The stream that is read.
    pub closed spec fn spec_inner(&self) -> S {
        self.inner
    }

    /// The trigger held while the stream is read.
    pub closed spec fn spec_stop_trigger(&self) -> T {
        self.stop_trigger
    }

    pub fn new(inner: S, stop_trigger: T) -> (r: Self)
        ensures
            r.spec_inner() == inner,
            r.spec_stop_trigger() == stop_trigger,
    {
        MpegTsStreamTerminator { inner, stop_trigger }
    }

    /// The stream that is read, and the trigger.
    pub fn into_parts(self) -> (r: (S, T))
        ensures
            r.0 == self.spec_inner(),
            r.1 == self.spec_stop_trigger(),
    {
        (self.inner, self.stop_trigger)
    }
}

} // verus!
