use vstd::prelude::*;

verus! {

/// The decisions of a clip's resample worker: how many compressed packets are left, and
/// whether it still takes requests. The decoding and resampling themselves happen elsewhere;
/// this record says which packets they get.
#[derive(Debug, Clone, Copy, PartialEq, Eq, Structural)]
pub struct ResampleWorker {
    pub backlog: usize,
    pub live: bool,
}

/// The worker after a request arrives, and whether it decodes the first waiting packet
/// (`true`) or stops for good (`false`, the backlog being empty or the worker stopped).
pub open spec fn spec_begin(w: ResampleWorker) -> (ResampleWorker, bool) {
    if w.live && w.backlog > 0 {
        (ResampleWorker { backlog: (w.backlog - 1) as usize, live: true }, true)
    } else {
        (ResampleWorker { backlog: w.backlog, live: false }, false)
    }
}

/// How many more packets a request for `desired` samples takes once the first packet showed
/// that one packet decodes to `per_packet` samples: as many as the request covers, at most
/// the backlog. A packet that decodes to nothing gives no estimate, and none is taken.
pub open spec fn spec_more_packets(w: ResampleWorker, desired: nat, per_packet: nat) -> nat {
    if per_packet == 0 {
        0
    } else if desired / per_packet <= w.backlog {
        desired / per_packet
    } else {
        w.backlog as nat
    }
}

impl ResampleWorker {
    /// A live worker with `backlog` packets to decode.
    pub fn new(backlog: usize) -> (r: Self)
        ensures
            r.backlog == backlog,
            r.live,
    {
        ResampleWorker { backlog, live: true }
    }

    /// A request arrives. Returns whether to decode the first waiting packet; where it
    /// returns `false` the worker has stopped and takes no more packets.
    pub fn begin_request(&mut self) -> (r: bool)
        ensures
            (*final(self), r) == spec_begin(*old(self)),
    {
        if self.live && self.backlog > 0 {
            self.backlog = self.backlog - 1;
            true
        } else {
            self.live = false;
            false
        }
    }

    /// After the first packet of a request decoded to `per_packet` samples: the number of
    /// further packets to decode, in stream order, for `desired` samples.
    pub fn more_packets(&mut self, desired: usize, per_packet: usize) -> (r: usize)
        ensures
            r == spec_more_packets(*old(self), desired as nat, per_packet as nat),
            final(self).backlog == old(self).backlog - r,
            final(self).live == old(self).live,
    {
        let n = if per_packet == 0 {
            0
        } else if desired / per_packet <= self.backlog {
            desired / per_packet
        } else {
            self.backlog
        };
        self.backlog = self.backlog - n;
        n
    }

    /// A packet failed to decode: the worker stops for good.
    pub fn fail(&mut self)
        ensures
            !final(self).live,
            final(self).backlog == old(self).backlog,
    {
        self.live = false;
    }
}

/// Whether the samples waiting to be resampled fill the resampler's next input frame; what
/// does not stays for the next request.
pub fn input_frame_ready(waiting: usize, frame_len: usize) -> (r: bool)
    ensures
        r == (waiting >= frame_len),
{
    waiting >= frame_len
}

/// A request that asks for at least what the backlog holds empties it; from then on every
/// request stops the worker and takes no packet, so the clip's samples stop growing.
pub proof fn lemma_exhausted_worker_stops(w: ResampleWorker, desired: nat, per_packet: nat, later: nat)
    requires
        w.live,
        w.backlog > 0,
        per_packet > 0,
        desired >= per_packet * w.backlog,
    ensures
        ({
            let (w1, first) = spec_begin(w);
            let n = spec_more_packets(w1, desired, per_packet);
            let w2 = ResampleWorker { backlog: (w1.backlog - n) as usize, live: w1.live };
            &&& first
            &&& 1 + n == w.backlog
            &&& w2.backlog == 0
            &&& !spec_begin(w2).1
            &&& !spec_begin(w2).0.live
            &&& later > 0 ==> spec_repeat(w2, later) == ResampleWorker { backlog: 0, live: false }
        }),
{
    let (w1, first) = spec_begin(w);
    assert(desired / per_packet >= w1.backlog) by (nonlinear_arith)
        requires
            per_packet > 0,
            desired >= per_packet * w.backlog,
            w1.backlog == w.backlog - 1,
    {
        assert(per_packet * (w.backlog - 1) <= desired);
        vstd::arithmetic::div_mod::lemma_div_is_ordered(per_packet * (w.backlog - 1) as int, desired as int, per_packet as int);
        vstd::arithmetic::div_mod::lemma_div_multiples_vanish((w.backlog - 1) as int, per_packet as int);
    }
    let n = spec_more_packets(w1, desired, per_packet);
    let w2 = ResampleWorker { backlog: (w1.backlog - n) as usize, live: w1.live };
    lemma_repeat_stays_stopped(w2, later);
}

/// The worker after `n` further requests.
pub open spec fn spec_repeat(w: ResampleWorker, n: nat) -> ResampleWorker
    decreases n,
{
    if n == 0 {
        w
    } else {
        spec_repeat(spec_begin(w).0, (n - 1) as nat)
    }
}

proof fn lemma_repeat_stays_stopped(w: ResampleWorker, n: nat)
    requires
        w.backlog == 0,
    ensures
        n > 0 ==> spec_repeat(w, n) == (ResampleWorker { backlog: 0, live: false }),
        n == 0 ==> spec_repeat(w, n) == w,
    decreases n,
{
    if n > 0 {
        lemma_repeat_stays_stopped(spec_begin(w).0, (n - 1) as nat);
    }
}

} // verus!
