//! What passes between a process and a child that it starts: the bytes that the
//! child is given, and the frame in which they and its resources are handed over.

use crate::bytes::{read_le, write_le};
use vstd::prelude::*;

verus! {

/// Bytes that a child can be given at most.
pub const MAX_BOOTSTRAP: usize = 4096;

/// Resources that a child can be given at most.
pub const MAX_RESOURCES: usize = 8;

/// Bytes in front of a frame's contents: a mark, the number of bytes and the
/// number of resources.
pub const HEADER: usize = 8;

/// The bytes that a child is given.
#[derive(Clone, Debug, PartialEq, Eq)]
pub struct Bootstrap(Vec<u8>);

/// More bytes than a child can be given.
#[derive(Clone, Copy, Debug, PartialEq, Eq, Structural)]
pub struct TooLarge {
    pub len: usize,
    pub max: usize,
}

fn copied(bytes: &[u8], from: usize, upto: usize) -> (copy: Vec<u8>)
    requires
        from <= upto <= bytes@.len(),
    ensures
        copy@ == bytes@.subrange(from as int, upto as int),
{
    let mut copy: Vec<u8> = Vec::new();
    let mut i: usize = from;
    while i < upto
        invariant
            from <= i <= upto <= bytes@.len(),
            copy@ == bytes@.subrange(from as int, i as int),
        decreases upto - i,
    {
        copy.push(bytes[i]);
        i = i + 1;
        assert(copy@ =~= bytes@.subrange(from as int, i as int));
    }
    copy
}

impl View for Bootstrap {
    type V = Seq<u8>;

    closed spec fn view(&self) -> Seq<u8> {
        self.0@
    }
}

impl Bootstrap {
    pub open spec fn wf(&self) -> bool {
        self@.len() <= MAX_BOOTSTRAP
    }

    /// The bytes, where they are not too many.
    pub fn new(bytes: &[u8]) -> (made: Result<Self, TooLarge>)
        ensures
            match made {
                Ok(bootstrap) => bootstrap@ == bytes@ && bootstrap.wf(),
                Err(error) => bytes@.len() > MAX_BOOTSTRAP && error == (TooLarge {
                    len: bytes.len(),
                    max: MAX_BOOTSTRAP,
                }),
            },
    {
        if bytes.len() > MAX_BOOTSTRAP {
            return Err(TooLarge { len: bytes.len(), max: MAX_BOOTSTRAP });
        }
        let copy = copied(bytes, 0, bytes.len());
        assert(bytes@.subrange(0, bytes@.len() as int) =~= bytes@);
        Ok(Bootstrap(copy))
    }

    pub fn into_boxed(self) -> (bytes: Vec<u8>)
        ensures
            bytes@ == self@,
    {
        self.0
    }

    pub fn as_bytes(&self) -> (bytes: &[u8])
        ensures
            bytes@ == self@,
    {
        self.0.as_slice()
    }
}

/// Why a frame is not sent or not accepted.
#[derive(Clone, Copy, Debug, PartialEq, Eq, Structural)]
pub enum FrameError {
    TooManyResources,
    TooManyExpected,
    Truncated,
    Header,
    Bounds,
    Length,
    Count,
}

/// The mark at the beginning of a frame.
pub open spec fn mark() -> Seq<u8> {
    seq![69u8, 86u8, 82u8, 49u8]
}

/// A frame: its mark, how many bytes and how many resources there are, and the
/// bytes.
pub open spec fn frame(bytes: Seq<u8>, resources: nat) -> Seq<u8> {
    mark() + crate::bytes::le_bytes(bytes.len(), 2) + crate::bytes::le_bytes(resources, 2) + bytes
}

/// How many bytes a frame says that it holds.
pub open spec fn said_bytes(frame: Seq<u8>) -> nat {
    crate::bytes::le(frame.subrange(4, 6))
}

/// How many resources a frame says that come with it.
pub open spec fn said_resources(frame: Seq<u8>) -> nat {
    crate::bytes::le(frame.subrange(6, 8))
}

/// Whether a frame begins as one does.
pub open spec fn marked(frame: Seq<u8>) -> bool {
    frame.len() >= HEADER && frame.subrange(0, 4) == mark()
}

/// Why what was received is no frame with the expected resources.
pub open spec fn frame_refused(
    frame: Seq<u8>,
    truncated: bool,
    expected: usize,
    received: usize,
) -> Option<FrameError> {
    if expected > MAX_RESOURCES {
        Some(FrameError::TooManyExpected)
    } else if truncated {
        Some(FrameError::Truncated)
    } else if !marked(frame) {
        Some(FrameError::Header)
    } else if said_bytes(frame) > MAX_BOOTSTRAP || frame.len() != HEADER + said_bytes(frame) {
        Some(FrameError::Length)
    } else if said_resources(frame) != expected || received != expected {
        Some(FrameError::Count)
    } else {
        None
    }
}

/// What is said in front of a frame's contents, where it is marked as a frame.
fn read_header(frame: &[u8]) -> (said: Option<(usize, usize)>)
    ensures
        match said {
            Some((bytes, resources)) => marked(frame@) && bytes == said_bytes(frame@) && resources
                == said_resources(frame@) && bytes <= 0xffff && resources <= 0xffff,
            None => !marked(frame@),
        },
{
    if frame.len() < HEADER {
        return None;
    }
    if frame[0] != 69 || frame[1] != 86 || frame[2] != 82 || frame[3] != 49 {
        proof {
            if frame@.subrange(0, 4) == mark() {
                assert(frame@.subrange(0, 4)[0] == mark()[0]);
                assert(frame@.subrange(0, 4)[1] == mark()[1]);
                assert(frame@.subrange(0, 4)[2] == mark()[2]);
                assert(frame@.subrange(0, 4)[3] == mark()[3]);
            }
        }
        return None;
    }
    assert(frame@.subrange(0, 4) =~= mark());
    let first = copied(frame, 4, 6);
    let second = copied(frame, 6, 8);
    proof {
        crate::bytes::law_le_bytes_round_trip(first@);
        crate::bytes::law_le_bytes_round_trip(second@);
        reveal_with_fuel(crate::bytes::byte_range, 3);
    }
    let bytes: u64 = read_le(first.as_slice());
    let resources: u64 = read_le(second.as_slice());
    Some((bytes as usize, resources as usize))
}

fn append(into: &mut Vec<u8>, bytes: &[u8])
    ensures
        final(into)@ == old(into)@ + bytes@,
{
    let ghost start = into@;
    let mut i: usize = 0;
    while i < bytes.len()
        invariant
            start == old(into)@,
            i <= bytes@.len(),
            into@ == start + bytes@.subrange(0, i as int),
        decreases bytes@.len() - i,
    {
        into.push(bytes[i]);
        i = i + 1;
        assert(into@ =~= start + bytes@.subrange(0, i as int));
    }
    assert(bytes@.subrange(0, bytes@.len() as int) =~= bytes@);
}

/// The frame of these bytes, with which as many resources are sent.
pub fn encode_frame(bootstrap: &Bootstrap, resources: usize) -> (encoded: Result<
    Vec<u8>,
    FrameError,
>)
    requires
        bootstrap.wf(),
    ensures
        match encoded {
            Ok(bytes) => resources <= MAX_RESOURCES && bytes@ == frame(
                bootstrap@,
                resources as nat,
            ),
            Err(error) => resources > MAX_RESOURCES && error == FrameError::TooManyResources,
        },
{
    if resources > MAX_RESOURCES {
        return Err(FrameError::TooManyResources);
    }
    let bytes = bootstrap.as_bytes();
    let mut encoded: Vec<u8> = Vec::new();
    encoded.push(69);
    encoded.push(86);
    encoded.push(82);
    encoded.push(49);
    assert(encoded@ =~= mark());
    let count = write_le(bytes.len() as u64, 2);
    append(&mut encoded, count.as_slice());
    let number = write_le(resources as u64, 2);
    append(&mut encoded, number.as_slice());
    append(&mut encoded, bytes);
    Ok(encoded)
}

/// The bytes of a frame that came as a whole, with the expected resources.
pub fn decode_frame(frame: &[u8], truncated: bool, expected: usize, received: usize) -> (decoded:
    Result<Bootstrap, FrameError>)
    ensures
        match decoded {
            Ok(bootstrap) => frame_refused(frame@, truncated, expected, received) is None
                && bootstrap@ == frame@.skip(HEADER as int) && bootstrap.wf(),
            Err(error) => frame_refused(frame@, truncated, expected, received) == Some(error),
        },
{
    if expected > MAX_RESOURCES {
        return Err(FrameError::TooManyExpected);
    }
    if truncated {
        return Err(FrameError::Truncated);
    }
    let (bytes, resources) = match read_header(frame) {
        Some(said) => said,
        None => return Err(FrameError::Header),
    };
    if bytes > MAX_BOOTSTRAP || frame.len() != HEADER + bytes {
        return Err(FrameError::Length);
    }
    if resources != expected || received != expected {
        return Err(FrameError::Count);
    }
    let contents = copied(frame, HEADER, frame.len());
    assert(contents@ =~= frame@.skip(HEADER as int));
    Ok(Bootstrap(contents))
}

proof fn lemma_frame_parts(bytes: Seq<u8>, resources: nat)
    requires
        bytes.len() <= MAX_BOOTSTRAP,
        resources <= MAX_RESOURCES,
    ensures
        frame(bytes, resources).len() == HEADER + bytes.len(),
        marked(frame(bytes, resources)),
        said_bytes(frame(bytes, resources)) == bytes.len(),
        said_resources(frame(bytes, resources)) == resources,
        frame(bytes, resources).skip(HEADER as int) == bytes,
{
    let whole = frame(bytes, resources);
    crate::bytes::law_words_fit(0, 0, bytes.len() as u16);
    crate::bytes::law_words_fit(0, 0, resources as u16);
    crate::bytes::law_le_round_trips(bytes.len(), 2);
    crate::bytes::law_le_round_trips(resources, 2);
    assert(whole.subrange(0, 4) =~= mark());
    assert(whole.subrange(4, 6) =~= crate::bytes::le_bytes(bytes.len(), 2));
    assert(whole.subrange(6, 8) =~= crate::bytes::le_bytes(resources, 2));
    assert(whole.skip(HEADER as int) =~= bytes);
}

/// What is framed is what is accepted and read back, with its resources; and
/// nothing but a frame is accepted.
pub proof fn law_frames_round_trip(
    bytes: Seq<u8>,
    resources: usize,
    other: Seq<u8>,
    truncated: bool,
    received: usize,
)
    requires
        bytes.len() <= MAX_BOOTSTRAP,
        resources <= MAX_RESOURCES,
    ensures
        frame_refused(frame(bytes, resources as nat), false, resources, resources) is None,
        frame(bytes, resources as nat).skip(HEADER as int) == bytes,
        frame_refused(other, truncated, resources, received) is None ==> !truncated && received
            == resources && other == frame(other.skip(HEADER as int), resources as nat),
{
    lemma_frame_parts(bytes, resources as nat);
    if frame_refused(other, truncated, resources, received) is None {
        let rest = other.skip(HEADER as int);
        crate::bytes::law_le_bytes_round_trip(other.subrange(4, 6));
        crate::bytes::law_le_bytes_round_trip(other.subrange(6, 8));
        assert(other =~= other.subrange(0, 4) + other.subrange(4, 6) + other.subrange(6, 8)
            + rest);
    }
}

/// A frame is refused for what is wrong with it: that it was cut, that it is
/// longer or shorter than it says, that it holds too much, or that other
/// resources come with it than expected.
pub proof fn law_frames_are_refused_for_what_is_wrong(
    bytes: Seq<u8>,
    resources: usize,
    expected: usize,
    received: usize,
    more: u8,
)
    requires
        bytes.len() <= MAX_BOOTSTRAP,
        resources <= MAX_RESOURCES,
        expected <= MAX_RESOURCES,
    ensures
        frame_refused(frame(bytes, resources as nat), true, expected, received) == Some(
            FrameError::Truncated,
        ),
        frame_refused(frame(bytes, resources as nat), false, expected, received) == Some(
            FrameError::Count,
        ) <==> expected != resources || received != expected,
        frame_refused(frame(bytes, resources as nat).push(more), false, expected, received) == Some(
            FrameError::Length,
        ),
        bytes.len() > 0 ==> frame_refused(
            frame(bytes, resources as nat).drop_last(),
            false,
            expected,
            received,
        ) == Some(FrameError::Length),
        bytes.len() == 0 ==> frame_refused(
            frame(bytes, resources as nat).drop_last(),
            false,
            expected,
            received,
        ) == Some(FrameError::Header),
{
    let whole = frame(bytes, resources as nat);
    lemma_frame_parts(bytes, resources as nat);
    let longer = whole.push(more);
    let shorter = whole.drop_last();
    assert(longer.subrange(0, 4) =~= whole.subrange(0, 4));
    assert(longer.subrange(4, 6) =~= whole.subrange(4, 6));
    if bytes.len() > 0 {
        assert(shorter.subrange(0, 4) =~= whole.subrange(0, 4));
        assert(shorter.subrange(4, 6) =~= whole.subrange(4, 6));
    }
}

/// Nothing is accepted where more resources are expected than can come, and a
/// frame that says to hold too many bytes is none, however many it holds.
pub proof fn law_frames_are_bounded(other: Seq<u8>, truncated: bool, expected: usize, received: usize)
    ensures
        frame_refused(other, truncated, expected, received) is None ==> expected <= MAX_RESOURCES
            && HEADER <= other.len() <= HEADER + MAX_BOOTSTRAP,
        frame_refused(other, truncated, expected, received) == Some(FrameError::TooManyExpected)
            <==> expected > MAX_RESOURCES,
        named_refused(other, expected) is None ==> expected <= MAX_RESOURCES && HEADER
            <= other.len() <= HEADER + MAX_BOOTSTRAP + 8 * MAX_RESOURCES,
        named_refused(other, expected) == Some(FrameError::TooManyExpected) <==> expected
            > MAX_RESOURCES,
{
}

/// The bytes of the names of resources, one after the other.
pub open spec fn names_bytes(names: Seq<u64>) -> Seq<u8>
    decreases names.len(),
{
    if names.len() == 0 {
        Seq::empty()
    } else {
        names_bytes(names.drop_last()) + crate::bytes::le_bytes(names.last() as nat, 8)
    }
}

/// A frame that names its resources behind its bytes.
pub open spec fn named_frame(bytes: Seq<u8>, names: Seq<u64>) -> Seq<u8> {
    frame(bytes, names.len()) + names_bytes(names)
}

/// Why what was received is no frame that names the expected resources.
pub open spec fn named_refused(frame: Seq<u8>, expected: usize) -> Option<FrameError> {
    if expected > MAX_RESOURCES {
        Some(FrameError::TooManyExpected)
    } else if !marked(frame) {
        Some(FrameError::Header)
    } else if said_bytes(frame) > MAX_BOOTSTRAP || said_resources(frame) > MAX_RESOURCES {
        Some(FrameError::Bounds)
    } else if frame.len() != HEADER + said_bytes(frame) + 8 * said_resources(frame) {
        Some(FrameError::Length)
    } else if said_resources(frame) != expected {
        Some(FrameError::Count)
    } else {
        None
    }
}

/// The name at a place of a frame that names its resources.
pub open spec fn name_at(frame: Seq<u8>, i: int) -> u64 {
    let start = HEADER + said_bytes(frame) + 8 * i;
    crate::bytes::le(frame.subrange(start, start + 8)) as u64
}

/// The frame of these bytes and of the names of the resources.
pub fn encode_named(bootstrap: &Bootstrap, names: &[u64]) -> (encoded: Result<Vec<u8>, FrameError>)
    requires
        bootstrap.wf(),
    ensures
        match encoded {
            Ok(bytes) => names@.len() <= MAX_RESOURCES && bytes@ == named_frame(
                bootstrap@,
                names@,
            ),
            Err(error) => names@.len() > MAX_RESOURCES && error == FrameError::TooManyResources,
        },
{
    let mut encoded = match encode_frame(bootstrap, names.len()) {
        Ok(encoded) => encoded,
        Err(error) => return Err(error),
    };
    let ghost front = encoded@;
    let mut i: usize = 0;
    assert(front + names_bytes(names@.subrange(0, 0)) =~= front);
    while i < names.len()
        invariant
            i <= names@.len(),
            encoded@ == front + names_bytes(names@.subrange(0, i as int)),
        decreases names@.len() - i,
    {
        let name = write_le(names[i], 8);
        append(&mut encoded, name.as_slice());
        proof {
            let so_far = names@.subrange(0, i as int);
            let now = names@.subrange(0, i as int + 1);
            assert(now.drop_last() =~= so_far);
            assert(now.last() == names@[i as int]);
            assert(encoded@ =~= front + names_bytes(now));
        }
        i = i + 1;
    }
    assert(names@.subrange(0, names@.len() as int) =~= names@);
    Ok(encoded)
}

/// The bytes of a frame and the names of its resources.
pub fn decode_named(frame: &[u8], expected: usize) -> (decoded: Result<
    (Bootstrap, Vec<u64>),
    FrameError,
>)
    ensures
        match decoded {
            Ok((bootstrap, names)) => {
                &&& named_refused(frame@, expected) is None
                &&& bootstrap@ == frame@.subrange(HEADER as int, HEADER + said_bytes(frame@))
                &&& bootstrap.wf()
                &&& names@ == Seq::new(expected as nat, |i: int| name_at(frame@, i))
            },
            Err(error) => named_refused(frame@, expected) == Some(error),
        },
{
    if expected > MAX_RESOURCES {
        return Err(FrameError::TooManyExpected);
    }
    let (bytes, resources) = match read_header(frame) {
        Some(said) => said,
        None => return Err(FrameError::Header),
    };
    if bytes > MAX_BOOTSTRAP || resources > MAX_RESOURCES {
        return Err(FrameError::Bounds);
    }
    if frame.len() != HEADER + bytes + 8 * resources {
        return Err(FrameError::Length);
    }
    if resources != expected {
        return Err(FrameError::Count);
    }
    let contents = copied(frame, HEADER, HEADER + bytes);
    let mut names: Vec<u64> = Vec::new();
    let mut i: usize = 0;
    while i < resources
        invariant
            bytes <= MAX_BOOTSTRAP,
            resources <= MAX_RESOURCES,
            i <= resources,
            bytes == said_bytes(frame@),
            frame@.len() == HEADER + bytes + 8 * resources,
            names@ =~= Seq::new(i as nat, |k: int| name_at(frame@, k)),
        decreases resources - i,
    {
        let start: usize = HEADER + bytes + 8 * i;
        let name = copied(frame, start, start + 8);
        names.push(read_le(name.as_slice()));
        i = i + 1;
    }
    Ok((Bootstrap(contents), names))
}

proof fn lemma_name_in(names: Seq<u64>, i: int)
    requires
        0 <= i < names.len(),
    ensures
        names_bytes(names).len() == 8 * names.len(),
        crate::bytes::le(names_bytes(names).subrange(8 * i, 8 * i + 8)) == names[i],
    decreases names.len(),
{
    let front = names.drop_last();
    let last = names.last();
    crate::bytes::law_words_fit(last, 0, 0);
    crate::bytes::law_le_round_trips(last as nat, 8);
    if front.len() > 0 {
        lemma_name_in(front, if i < front.len() {
            i
        } else {
            0
        });
    }
    if i < front.len() {
        assert(names_bytes(names).subrange(8 * i, 8 * i + 8) =~= names_bytes(front).subrange(
            8 * i,
            8 * i + 8,
        ));
    } else {
        assert(names_bytes(names).subrange(8 * i, 8 * i + 8) =~= crate::bytes::le_bytes(
            last as nat,
            8,
        ));
    }
}

/// A frame that names its resources is accepted, and its bytes and the names are
/// read back.
pub proof fn law_named_frames_round_trip(bytes: Seq<u8>, names: Seq<u64>)
    requires
        bytes.len() <= MAX_BOOTSTRAP,
        names.len() <= MAX_RESOURCES,
    ensures
        named_refused(named_frame(bytes, names), names.len() as usize) is None,
        named_frame(bytes, names).subrange(
            HEADER as int,
            HEADER + said_bytes(named_frame(bytes, names)),
        ) == bytes,
        forall|i: int|
            0 <= i < names.len() ==> #[trigger] name_at(named_frame(bytes, names), i) == names[i],
{
    let front = frame(bytes, names.len());
    let whole = named_frame(bytes, names);
    lemma_frame_parts(bytes, names.len());
    if names.len() > 0 {
        lemma_name_in(names, 0);
    }
    assert(whole.subrange(0, 4) =~= front.subrange(0, 4));
    assert(whole.subrange(4, 6) =~= front.subrange(4, 6));
    assert(whole.subrange(6, 8) =~= front.subrange(6, 8));
    assert(whole.subrange(8, 8 + bytes.len() as int) =~= front.skip(8));
    assert forall|i: int| 0 <= i < names.len() implies #[trigger] name_at(whole, i)
        == names[i] by {
        lemma_name_in(names, i);
        let start = HEADER + bytes.len() + 8 * i;
        assert(whole.subrange(start, start + 8) =~= names_bytes(names).subrange(
            8 * i,
            8 * i + 8,
        ));
    }
}

/// Nothing but a frame that names its resources is accepted as one: what is
/// accepted is the frame of what is read of it.
pub proof fn law_only_named_frames_are_accepted(other: Seq<u8>, expected: usize)
    requires
        named_refused(other, expected) is None,
    ensures
        other == named_frame(
            other.subrange(HEADER as int, HEADER + said_bytes(other)),
            Seq::new(expected as nat, |k: int| name_at(other, k)),
        ),
{
    let bytes = other.subrange(HEADER as int, HEADER + said_bytes(other));
    let names = Seq::new(expected as nat, |k: int| name_at(other, k));
    let tail = other.skip(HEADER + said_bytes(other));
    crate::bytes::law_le_bytes_round_trip(other.subrange(4, 6));
    crate::bytes::law_le_bytes_round_trip(other.subrange(6, 8));
    assert forall|i: int| 0 <= i < names.len() implies crate::bytes::le_bytes(
        #[trigger] names[i] as nat,
        8,
    ) == tail.subrange(8 * i, 8 * i + 8) by {
        let start = HEADER + said_bytes(other) + 8 * i;
        let name = other.subrange(start, start + 8);
        crate::bytes::law_le_bytes_round_trip(name);
        lemma_word_range();
        assert(name =~= tail.subrange(8 * i, 8 * i + 8));
    }
    lemma_names_of(names, tail);
    assert(other =~= other.subrange(0, 4) + other.subrange(4, 6) + other.subrange(6, 8) + bytes
        + tail);
}

/// Eight bytes write a word at most.
proof fn lemma_word_range()
    ensures
        crate::bytes::byte_range(8) == u64::MAX + 1,
{
    reveal_with_fuel(crate::bytes::byte_range, 9);
}

/// Bytes that are those of each name in turn are those of the names.
proof fn lemma_names_of(names: Seq<u64>, tail: Seq<u8>)
    requires
        tail.len() == 8 * names.len(),
        forall|i: int|
            0 <= i < names.len() ==> crate::bytes::le_bytes(#[trigger] names[i] as nat, 8)
                == tail.subrange(8 * i, 8 * i + 8),
    ensures
        names_bytes(names) == tail,
    decreases names.len(),
{
    if names.len() > 0 {
        let front = names.drop_last();
        let before = tail.take(8 * front.len() as int);
        let last = names.len() - 1;
        assert forall|i: int| 0 <= i < front.len() implies crate::bytes::le_bytes(
            #[trigger] front[i] as nat,
            8,
        ) == before.subrange(8 * i, 8 * i + 8) by {
            assert(front[i] == names[i]);
            assert(before.subrange(8 * i, 8 * i + 8) =~= tail.subrange(8 * i, 8 * i + 8));
        }
        lemma_names_of(front, before);
        assert(names[last] == names.last());
        assert(tail =~= before + tail.subrange(8 * last, 8 * last + 8));
    } else {
        assert(tail =~= Seq::<u8>::empty());
    }
}

/// What a supervisor does next to end a child and to know how it ended.
#[derive(Clone, Copy, Debug, PartialEq, Eq, Structural)]
pub enum KillStep {
    /// Ask whether the child has ended.
    Ask,
    Kill,
    /// Ask once more after a kill that failed.
    AskAgain,
    /// Wait for the end of the child that was killed.
    Wait,
    /// The child has ended, and how is known.
    Ended,
    /// Neither has the child ended nor can it be killed.
    Failed,
}

/// What came of a step.
#[derive(Clone, Copy, Debug, PartialEq, Eq, Structural)]
pub enum KillEvent {
    /// The child has ended.
    Exited,
    /// The child has not ended.
    Running,
    /// The child was killed.
    Killed,
    /// The call itself failed.
    Error,
}

/// The step after a step and what came of it.
pub open spec fn kill_next(step: KillStep, event: KillEvent) -> KillStep {
    match (step, event) {
        (KillStep::Ask, KillEvent::Exited) => KillStep::Ended,
        (KillStep::Ask, KillEvent::Running) => KillStep::Kill,
        (KillStep::Kill, KillEvent::Killed) => KillStep::Wait,
        (KillStep::Kill, KillEvent::Error) => KillStep::AskAgain,
        (KillStep::AskAgain, KillEvent::Exited) => KillStep::Ended,
        (KillStep::Wait, KillEvent::Exited) => KillStep::Ended,
        (KillStep::Ended, _) => KillStep::Ended,
        _ => KillStep::Failed,
    }
}

/// The first step to end a child, of which it may be known that it has ended.
pub open spec fn kill_first(ended: bool) -> KillStep {
    if ended {
        KillStep::Ended
    } else {
        KillStep::Ask
    }
}

impl KillStep {
    /// The first step: nothing is asked of a child that is known to have ended.
    pub fn first(ended: bool) -> (step: Self)
        ensures
            step == (if ended {
                KillStep::Ended
            } else {
                KillStep::Ask
            }),
            step == kill_first(ended),
    {
        if ended {
            KillStep::Ended
        } else {
            KillStep::Ask
        }
    }

    /// The step after this one.
    pub fn next(self, event: KillEvent) -> (step: Self)
        ensures
            step == kill_next(self, event),
    {
        match (self, event) {
            (KillStep::Ask, KillEvent::Exited) => KillStep::Ended,
            (KillStep::Ask, KillEvent::Running) => KillStep::Kill,
            (KillStep::Kill, KillEvent::Killed) => KillStep::Wait,
            (KillStep::Kill, KillEvent::Error) => KillStep::AskAgain,
            (KillStep::AskAgain, KillEvent::Exited) => KillStep::Ended,
            (KillStep::Wait, KillEvent::Exited) => KillStep::Ended,
            (KillStep::Ended, _) => KillStep::Ended,
            _ => KillStep::Failed,
        }
    }
}

/// What can come of the call that a step makes: one that asks finds the child
/// ended or running, one that kills does so, and one that waits comes back only
/// with the end of the child; each of them can fail.
pub open spec fn can_come_of(step: KillStep, event: KillEvent) -> bool {
    match step {
        KillStep::Ask | KillStep::AskAgain => event != KillEvent::Killed,
        KillStep::Kill => event == KillEvent::Killed || event == KillEvent::Error,
        KillStep::Wait => event == KillEvent::Exited || event == KillEvent::Error,
        KillStep::Ended | KillStep::Failed => false,
    }
}

/// The step that a supervisor is at after these events, from a child of which it
/// may be known that it has ended.
pub open spec fn kill_run(ended: bool, events: Seq<KillEvent>) -> KillStep
    decreases events.len(),
{
    if events.len() == 0 {
        kill_first(ended)
    } else {
        kill_next(kill_run(ended, events.drop_last()), events.last())
    }
}

/// Each of these events can come of the step that the supervisor was at.
pub open spec fn can_happen(ended: bool, events: Seq<KillEvent>) -> bool
    decreases events.len(),
{
    events.len() > 0 ==> can_happen(ended, events.drop_last()) && can_come_of(
        kill_run(ended, events.drop_last()),
        events.last(),
    )
}

/// Where a run of the supervision can be, by what happened in it.
proof fn lemma_kill_run(ended: bool, events: Seq<KillEvent>)
    requires
        can_happen(ended, events),
    ensures
        ({
            let step = kill_run(ended, events);
            let n = events.len() as int;
            &&& ended ==> n == 0 && step == KillStep::Ended
            &&& !ended && n == 0 ==> step == KillStep::Ask
            &&& !ended && n == 1 ==> events[0] != KillEvent::Killed && step == (if events[0]
                == KillEvent::Exited {
                KillStep::Ended
            } else if events[0] == KillEvent::Running {
                KillStep::Kill
            } else {
                KillStep::Failed
            })
            &&& n >= 2 ==> events[0] == KillEvent::Running
            &&& n == 2 ==> step == (if events[1] == KillEvent::Killed {
                KillStep::Wait
            } else {
                KillStep::AskAgain
            })
            &&& n >= 2 ==> events[1] == KillEvent::Killed || events[1] == KillEvent::Error
            &&& n == 3 ==> step == (if events[2] == KillEvent::Exited {
                KillStep::Ended
            } else {
                KillStep::Failed
            })
            &&& n == 3 ==> events[2] == KillEvent::Exited || events[2] == KillEvent::Error || (
            events[1] == KillEvent::Error && events[2] == KillEvent::Running)
            &&& n <= 3
        }),
    decreases events.len(),
{
    if events.len() > 0 {
        let front = events.drop_last();
        lemma_kill_run(ended, front);
        assert(forall|i: int| 0 <= i < front.len() ==> front[i] == events[i]);
    }
}

/// A child that was killed is waited for: the call after a kill comes back only
/// with the end of the child or with a failure of its own, never because the
/// child still runs, and with the end of the child the supervision is over.
pub proof fn law_killed_children_are_waited_for(ended: bool, events: Seq<KillEvent>, then: KillEvent)
    requires
        can_happen(ended, events),
        events.len() > 0,
        events.last() == KillEvent::Killed,
        can_come_of(kill_run(ended, events), then),
    ensures
        then == KillEvent::Exited || then == KillEvent::Error,
        kill_run(ended, events.push(then)) == (if then == KillEvent::Exited {
            KillStep::Ended
        } else {
            KillStep::Failed
        }),
{
    lemma_kill_run(ended, events);
    assert(events.push(then).drop_last() =~= events);
}

/// Supervision fails only where a call failed: one that asked or waited, or the
/// kill of a child that still runs afterwards. A kill that fails is no failure
/// where the child turns out to have ended.
pub proof fn law_supervision_fails_only_where_a_call_did(ended: bool, events: Seq<KillEvent>)
    requires
        can_happen(ended, events),
    ensures
        kill_run(ended, events) == KillStep::Failed <==> (events.len() > 0 && events.len() != 2
            && events.last() == KillEvent::Error) || events == seq![
            KillEvent::Running,
            KillEvent::Error,
            KillEvent::Running,
        ],
        !events.contains(KillEvent::Error) ==> kill_run(ended, events) != KillStep::Failed,
{
    lemma_kill_run(ended, events);
    if events.len() == 3 && events.last() == KillEvent::Running {
        assert(events =~= seq![KillEvent::Running, KillEvent::Error, KillEvent::Running]);
    }
    if kill_run(ended, events) == KillStep::Failed {
        assert(events[0] == KillEvent::Error || events[1] == KillEvent::Error || events[2]
            == KillEvent::Error);
    }
}

/// Supervision comes to an end: after three calls at most no step is left, and
/// until it is over there is always a call whose answer leads on.
pub proof fn law_supervision_comes_to_an_end(ended: bool, events: Seq<KillEvent>)
    requires
        can_happen(ended, events),
    ensures
        events.len() <= 3,
        kill_run(ended, events) == KillStep::Ended <==> ended || (events.len() > 0
            && events.last() == KillEvent::Exited),
        kill_run(ended, events) == KillStep::Ended || kill_run(ended, events) == KillStep::Failed
            <==> forall|event: KillEvent| !#[trigger] can_come_of(kill_run(ended, events), event),
{
    lemma_kill_run(ended, events);
    let step = kill_run(ended, events);
    assert(can_come_of(step, KillEvent::Exited) || can_come_of(step, KillEvent::Killed) || step
        == KillStep::Ended || step == KillStep::Failed);
}

/// Only a child that was found running is killed, and it is killed once.
pub proof fn law_only_running_children_are_killed(ended: bool, events: Seq<KillEvent>)
    requires
        can_happen(ended, events),
    ensures
        kill_run(ended, events) == KillStep::Kill <==> !ended && events == seq![KillEvent::Running],
        ended ==> events.len() == 0,
{
    lemma_kill_run(ended, events);
    if kill_run(ended, events) == KillStep::Kill {
        assert(events =~= seq![KillEvent::Running]);
    }
    if !ended && events == seq![KillEvent::Running] {
        assert(events[0] == KillEvent::Running);
    }
}

/// A child counts as ended only where it was found to have exited.
pub proof fn law_ends_are_observed(step: KillStep, event: KillEvent)
    requires
        step != KillStep::Ended,
    ensures
        kill_next(step, event) == KillStep::Ended ==> event == KillEvent::Exited,
{
}

} // verus!
