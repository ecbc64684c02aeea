use vstd::prelude::*;

verus! {

/// The order in which the four bytes of a frame's length are written.
#[derive(Clone, Copy, Debug, PartialEq, Eq, Structural)]
pub enum ByteOrder {
    Little,
    Big,
}

/// The bytes of `x`, least significant first.
pub open spec fn le_bytes(x: u32) -> Seq<u8> {
    seq![
        (x % 256) as u8,
        ((x / 256) % 256) as u8,
        ((x / 65536) % 256) as u8,
        ((x / 16777216) % 256) as u8,
    ]
}

/// The bytes of `x`, most significant first.
pub open spec fn be_bytes(x: u32) -> Seq<u8> {
    seq![
        ((x / 16777216) % 256) as u8,
        ((x / 65536) % 256) as u8,
        ((x / 256) % 256) as u8,
        (x % 256) as u8,
    ]
}

/// The bytes of `x` in the given order.
pub open spec fn u32_bytes(order: ByteOrder, x: u32) -> Seq<u8> {
    match order {
        ByteOrder::Little => le_bytes(x),
        ByteOrder::Big => be_bytes(x),
    }
}

/// The number that the first four bytes of `b` stand for in the given order.
pub open spec fn u32_value(order: ByteOrder, b: Seq<u8>) -> nat {
    match order {
        ByteOrder::Little => (b[0] + 256 * b[1] + 65536 * b[2] + 16777216 * b[3]) as nat,
        ByteOrder::Big => (b[3] + 256 * b[2] + 65536 * b[1] + 16777216 * b[0]) as nat,
    }
}

/// The frame that carries `payload`: its length as a `u32` (cut to 32 bits,
/// as `usize as u32` does), then the payload itself.
pub open spec fn framed(order: ByteOrder, payload: Seq<u8>) -> Seq<u8> {
    u32_bytes(order, (payload.len() as usize) as u32) + payload
}

/// The first whole frame at the start of `inbox`: its payload and what
/// follows it; `None` while fewer bytes have arrived than it needs.
pub open spec fn next_frame(order: ByteOrder, inbox: Seq<u8>) -> Option<(Seq<u8>, Seq<u8>)> {
    if inbox.len() < 4 {
        None
    } else {
        let n = u32_value(order, inbox) as int;
        if inbox.len() < 4 + n {
            None
        } else {
            Some((inbox.subrange(4, 4 + n), inbox.skip(4 + n)))
        }
    }
}

/// Reading back a written length gives the length.
pub proof fn lemma_u32_value_of_bytes(order: ByteOrder, x: u32)
    ensures
        u32_value(order, u32_bytes(order, x)) == x,
        u32_bytes(order, x).len() == 4,
{
    assert((x % 256) + 256 * ((x / 256) % 256) + 65536 * ((x / 65536) % 256) + 16777216 * ((x
        / 16777216) % 256) == x) by (bit_vector);
}

/// The bytes of `x` in the order of this machine (`u32::to_ne_bytes`).
/// The documentation promises the native order, which on every machine is
/// either little- or big-endian; which one is not stated.
#[verifier::external_body]
fn native_bytes(x: u32) -> (r: [u8; 4])
    ensures
        r@ == le_bytes(x) || r@ == be_bytes(x),
{
    x.to_ne_bytes()
}

/// One end of a connection that carries length-prefixed frames. It holds
/// the byte order of its machine and the bytes received but not yet taken
/// out as frames.
pub struct Socket {
    order: ByteOrder,
    inbox: Vec<u8>,
}

impl View for Socket {
    type V = Seq<u8>;

    /// The bytes received and not yet taken out as frames.
    closed spec fn view(&self) -> Seq<u8> {
        self.inbox@
    }
}

impl Socket {
    /// The byte order in which this end writes and reads lengths.
    pub closed spec fn byte_order(&self) -> ByteOrder {
        self.order
    }

    /// A fresh end with nothing received, using the byte order of this machine.
    pub fn new() -> (s: Socket)
        ensures
            s@ == Seq::<u8>::empty(),
    {
        let probe = native_bytes(1);
        let order = if probe[0] == 1 {
            ByteOrder::Little
        } else {
            ByteOrder::Big
        };
        Socket { order, inbox: Vec::new() }
    }

    /// The byte order of this end.
    pub fn order(&self) -> (o: ByteOrder)
        ensures
            o == self.byte_order(),
    {
        self.order
    }

    /// The frame that carries `payload`, ready to be written to the peer.
    pub fn send(&self, payload: &[u8]) -> (frame: Vec<u8>)
        ensures
            frame@ == framed(self.byte_order(), payload@),
    {
        let n = payload.len() as u32;
        let mut frame = Vec::new();
        match self.order {
            ByteOrder::Little => {
                frame.push((n % 256) as u8);
                frame.push(((n / 256) % 256) as u8);
                frame.push(((n / 65536) % 256) as u8);
                frame.push(((n / 16777216) % 256) as u8);
            },
            ByteOrder::Big => {
                frame.push(((n / 16777216) % 256) as u8);
                frame.push(((n / 65536) % 256) as u8);
                frame.push(((n / 256) % 256) as u8);
                frame.push((n % 256) as u8);
            },
        }
        let ghost head = frame@;
        assert(head =~= u32_bytes(self.order, n));
        let mut k: usize = 0;
        while k < payload.len()
            invariant
                0 <= k <= payload@.len(),
                frame@ == head + payload@.take(k as int),
            decreases payload@.len() - k,
        {
            frame.push(payload[k]);
            assert(payload@.take(k + 1) =~= payload@.take(k as int).push(payload@[k as int]));
            k += 1;
        }
        assert(payload@.take(payload@.len() as int) =~= payload@);
        frame
    }

    /// Appends bytes that arrived from the peer.
    pub fn feed(&mut self, bytes: &[u8])
        ensures
            final(self)@ == old(self)@ + bytes@,
            final(self).byte_order() == old(self).byte_order(),
    {
        let mut k: usize = 0;
        while k < bytes.len()
            invariant
                0 <= k <= bytes@.len(),
                self.inbox@ == old(self).inbox@ + bytes@.take(k as int),
                self.order == old(self).order,
            decreases bytes@.len() - k,
        {
            self.inbox.push(bytes[k]);
            assert(bytes@.take(k + 1) =~= bytes@.take(k as int).push(bytes@[k as int]));
            k += 1;
        }
        assert(bytes@.take(bytes@.len() as int) =~= bytes@);
    }

    /// Takes the first whole frame out of what was received and returns its
    /// payload; `None`, with nothing taken, while the frame is incomplete.
    pub fn recv(&mut self) -> (r: Option<Vec<u8>>)
        ensures
            final(self).byte_order() == old(self).byte_order(),
            match next_frame(old(self).byte_order(), old(self)@) {
                Some((payload, rest)) => r matches Some(p) && p@ == payload && final(self)@ == rest,
                None => r is None && final(self)@ == old(self)@,
            },
    {
        let len = self.inbox.len();
        if len < 4 {
            return None;
        }
        let b0 = self.inbox[0] as u64;
        let b1 = self.inbox[1] as u64;
        let b2 = self.inbox[2] as u64;
        let b3 = self.inbox[3] as u64;
        let n: u64 = match self.order {
            ByteOrder::Little => b0 + 256 * b1 + 65536 * b2 + 16777216 * b3,
            ByteOrder::Big => b3 + 256 * b2 + 65536 * b1 + 16777216 * b0,
        };
        assert(n == u32_value(self.order, self.inbox@));
        if (len as u64) - 4 < n {
            return None;
        }
        let end = 4 + n as usize;
        let mut payload: Vec<u8> = Vec::new();
        let mut k: usize = 4;
        while k < end
            invariant
                4 <= k <= end <= self.inbox@.len(),
                payload@ == self.inbox@.subrange(4, k as int),
            decreases end - k,
        {
            payload.push(self.inbox[k]);
            assert(self.inbox@.subrange(4, k + 1) =~= self.inbox@.subrange(4, k as int).push(
                self.inbox@[k as int],
            ));
            k += 1;
        }
        let mut rest: Vec<u8> = Vec::new();
        let mut j: usize = end;
        while j < len
            invariant
                end <= j <= len == self.inbox@.len(),
                rest@ == self.inbox@.subrange(end as int, j as int),
            decreases len - j,
        {
            rest.push(self.inbox[j]);
            assert(self.inbox@.subrange(end as int, j + 1) =~= self.inbox@.subrange(
                end as int,
                j as int,
            ).push(self.inbox@[j as int]));
            j += 1;
        }
        assert(rest@ =~= self.inbox@.skip(end as int));
        self.inbox = rest;
        Some(payload)
    }
}

/// What a frame carries comes back out of it: the peer's end, reading the
/// frame of `payload` followed by any further bytes, takes out exactly
/// `payload` and leaves the further bytes in place. This holds for every
/// payload whose length fits in the 32-bit length field.
pub proof fn law_frame_roundtrip(order: ByteOrder, payload: Seq<u8>, rest: Seq<u8>)
    requires
        payload.len() <= u32::MAX,
    ensures
        next_frame(order, framed(order, payload) + rest) == Some((payload, rest)),
{
    let n = (payload.len() as usize) as u32;
    assert(n == payload.len());
    lemma_u32_value_of_bytes(order, n);
    let all = framed(order, payload) + rest;
    assert(u32_value(order, all) == u32_value(order, u32_bytes(order, n)));
    assert(all.subrange(4, 4 + payload.len() as int) =~= payload);
    assert(all.skip(4 + payload.len() as int) =~= rest);
}

/// The frames of `payloads`, one after the other, as a writer sends them.
pub open spec fn all_framed(order: ByteOrder, payloads: Seq<Seq<u8>>) -> Seq<u8>
    decreases payloads.len(),
{
    if payloads.len() == 0 {
        Seq::empty()
    } else {
        framed(order, payloads[0]) + all_framed(order, payloads.drop_first())
    }
}

/// Frames come out in the order they were sent: a reader (with the
/// writer's byte order) that has received the frames of `payloads` takes
/// out `payloads[i]` on its `i`-th turn, each time leaving exactly the frames
/// of the later payloads; once all are taken out, nothing more comes.
pub proof fn law_frames_in_order(order: ByteOrder, payloads: Seq<Seq<u8>>, i: int)
    requires
        forall|j: int| 0 <= j < payloads.len() ==> #[trigger] payloads[j].len() <= u32::MAX,
        0 <= i <= payloads.len(),
    ensures
        i < payloads.len() ==> next_frame(order, all_framed(order, payloads.skip(i))) == Some(
            (payloads[i], all_framed(order, payloads.skip(i + 1))),
        ),
        i == payloads.len() ==> next_frame(order, all_framed(order, payloads.skip(i))) is None,
{
    let rest = payloads.skip(i);
    if i < payloads.len() {
        assert(rest[0] == payloads[i]);
        assert(rest.drop_first() =~= payloads.skip(i + 1));
        law_frame_roundtrip(order, payloads[i], all_framed(order, payloads.skip(i + 1)));
    } else {
        assert(rest.len() == 0);
        assert(all_framed(order, rest).len() == 0);
    }
}

/// No frame comes out before all of it has arrived: a reader holding only
/// the first `k` bytes of the frame of `payload`, for any `k` short of the
/// whole frame, takes nothing out.
pub proof fn law_no_frame_before_complete(order: ByteOrder, payload: Seq<u8>, k: int)
    requires
        payload.len() <= u32::MAX,
        0 <= k < 4 + payload.len(),
    ensures
        next_frame(order, (u32_bytes(order, payload.len() as u32) + payload).take(k)) is None,
{
    let n = payload.len() as u32;
    lemma_u32_value_of_bytes(order, n);
    let whole = u32_bytes(order, n) + payload;
    let part = whole.take(k);
    if k >= 4 {
        assert(part[0] == whole[0] && part[1] == whole[1] && part[2] == whole[2] && part[3] == whole[3]);
        assert(u32_value(order, part) == u32_value(order, u32_bytes(order, n)));
    }
}

/// A frame comes out only once its length and all the bytes it announces
/// have arrived, and it is exactly those bytes: the payload is the
/// `u32_value` bytes after the four length bytes, and the rest of what
/// arrived stays.
pub proof fn law_frame_needs_whole_payload(order: ByteOrder, inbox: Seq<u8>)
    ensures
        next_frame(order, inbox) is Some ==> inbox.len() >= 4 && inbox.len() >= 4 + u32_value(order, inbox),
        next_frame(order, inbox) matches Some((p, rest)) ==> inbox == u32_bytes(order, p.len() as u32) + p + rest && p.len() == u32_value(order, inbox),
{
    if inbox.len() >= 4 {
        let n = u32_value(order, inbox);
        if inbox.len() >= 4 + n {
            let p = inbox.subrange(4, 4 + n as int);
            let x = p.len() as u32;
            assert(x == n);
            let b0 = inbox[0];
            let b1 = inbox[1];
            let b2 = inbox[2];
            let b3 = inbox[3];
            match order {
                ByteOrder::Little => {
                    assert(b0 + 256 * b1 + 65536 * b2 + 16777216 * b3 == x ==> (x % 256) as u8 == b0 && ((x / 256) % 256) as u8 == b1 && ((x / 65536) % 256) as u8 == b2 && ((x / 16777216) % 256) as u8 == b3) by (bit_vector);
                },
                ByteOrder::Big => {
                    assert(b3 + 256 * b2 + 65536 * b1 + 16777216 * b0 == x ==> (x % 256) as u8 == b3 && ((x / 256) % 256) as u8 == b2 && ((x / 65536) % 256) as u8 == b1 && ((x / 16777216) % 256) as u8 == b0) by (bit_vector);
                },
            }
            assert(inbox =~= u32_bytes(order, x) + p + inbox.skip(4 + n as int));
        }
    }
}

} // verus!
