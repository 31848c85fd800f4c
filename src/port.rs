//! Choosing a listening port: consecutive candidates from a start port, with
//! wrap-around, up to a number of tries. The caller tries to bind each
//! candidate and keeps the first socket that binds.
use vstd::prelude::*;

verus! {

/// The `i`-th candidate after `start`, wrapping past the largest port.
pub open spec fn candidate_port(start: u16, i: int) -> u16 {
    ((start + i) % 0x10000) as u16
}

/// What the caller is to do next while choosing a port.
#[derive(PartialEq, Eq, Structural, Debug, Clone, Copy)]
pub enum ScanAction {
    /// Try to bind this port, then report whether that worked.
    TryBind(u16),
    /// Keep the socket just bound to this port and serve on it.
    Serve(u16),
    /// No candidate could be bound.
    GiveUp,
}

/// How far a scan of candidate ports has come.
pub struct PortScan {
    pub start: u16,
    pub max_tries: u16,
    /// Candidates handed out so far.
    pub tried: u16,
}

impl PortScan {
    /// The scan after handing out one more candidate, and that candidate;
    /// `None` once `max_tries` candidates have been handed out.
    pub open spec fn advance(self) -> (PortScan, Option<u16>) {
        if self.tried < self.max_tries {
            (
                PortScan { tried: (self.tried + 1) as u16, ..self },
                Some(candidate_port(self.start, self.tried as int)),
            )
        } else {
            (self, None)
        }
    }

    /// The candidate handed out last (meaningful once `tried > 0`).
    pub open spec fn last_port(self) -> u16 {
        candidate_port(self.start, self.tried - 1)
    }

    /// The scan as it stood before the last candidate was handed out.
    pub open spec fn rewound(self) -> PortScan {
        PortScan { tried: (self.tried - 1) as u16, ..self }
    }

    /// Handing out the next candidate to try, or giving up.
    pub open spec fn try_next(self) -> (PortScan, ScanAction) {
        match self.advance() {
            (s, Some(p)) => (s, ScanAction::TryBind(p)),
            (s, None) => (s, ScanAction::GiveUp),
        }
    }

    /// The scan and action once the caller reports whether binding the last
    /// candidate worked.
    pub open spec fn after(self, bound: bool) -> (PortScan, ScanAction) {
        if self.tried > 0 && bound {
            (self, ScanAction::Serve(self.last_port()))
        } else {
            self.try_next()
        }
    }

    /// A scan from `start_port` that hands out at most `max_tries` candidates.
    pub fn new(start_port: u16, max_tries: u16) -> (r: PortScan)
        ensures
            r == (PortScan { start: start_port, max_tries, tried: 0 }),
    {
        PortScan { start: start_port, max_tries, tried: 0 }
    }

    /// The next port to try, or `None` when the tries are used up.
    pub fn next_port(&mut self) -> (r: Option<u16>)
        ensures
            (*final(self), r) == old(self).advance(),
    {
        if self.tried < self.max_tries {
            let port = self.start.wrapping_add(self.tried);
            self.tried = self.tried + 1;
            Some(port)
        } else {
            None
        }
    }

    /// The first action of a scan: try its first candidate, or give up.
    pub fn begin(&mut self) -> (r: ScanAction)
        ensures
            (*final(self), r) == old(self).try_next(),
    {
        match self.next_port() {
            Some(p) => ScanAction::TryBind(p),
            None => ScanAction::GiveUp,
        }
    }

    /// The next action once the caller reports whether binding the last
    /// candidate worked: serve on it, try the next one, or give up.
    pub fn after_bind(&mut self, bound: bool) -> (r: ScanAction)
        ensures
            (*final(self), r) == old(self).after(bound),
    {
        if self.tried > 0 && bound {
            ScanAction::Serve(self.start.wrapping_add(self.tried - 1))
        } else {
            self.begin()
        }
    }
}

/// The port a scan settles on when exactly the ports in `free` can be bound:
/// the first free candidate it hands out, if any.
pub open spec fn scan_outcome(scan: PortScan, free: Set<u16>) -> Option<u16>
    decreases scan.max_tries - scan.tried,
{
    match scan.advance() {
        (rest, Some(port)) => if free.contains(port) {
            Some(port)
        } else {
            scan_outcome(rest, free)
        },
        (_, None) => None,
    }
}

proof fn lemma_occupied_from(scan: PortScan, free: Set<u16>)
    requires
        forall|i: int|
            scan.tried <= i < scan.max_tries ==> !free.contains(
                #[trigger] candidate_port(scan.start, i),
            ),
    ensures
        scan_outcome(scan, free) is None,
    decreases scan.max_tries - scan.tried,
{
    if scan.tried < scan.max_tries {
        assert(!free.contains(candidate_port(scan.start, scan.tried as int)));
        lemma_occupied_from(PortScan { tried: (scan.tried + 1) as u16, ..scan }, free);
    }
}

/// When none of the first `max_tries` candidates from `start_port` can be
/// bound, the scan gives up with no port: it hands out `max_tries` candidates
/// and then `None`.
pub proof fn lemma_all_occupied_fails(start_port: u16, max_tries: u16, free: Set<u16>)
    requires
        forall|i: int| 0 <= i < max_tries ==> !free.contains(#[trigger] candidate_port(start_port, i)),
    ensures
        scan_outcome(PortScan { start: start_port, max_tries, tried: 0 }, free) is None,
{
    lemma_occupied_from(PortScan { start: start_port, max_tries, tried: 0 }, free);
}

proof fn lemma_outcome_from(scan: PortScan, free: Set<u16>, port: u16)
    requires
        scan_outcome(scan, free) == Some(port),
    ensures
        free.contains(port),
        exists|i: int|
            scan.tried <= i < scan.max_tries && port == candidate_port(scan.start, i) && forall|
                j: int,
            |
                scan.tried <= j < i ==> !free.contains(#[trigger] candidate_port(scan.start, j)),
    decreases scan.max_tries - scan.tried,
{
    let port0 = candidate_port(scan.start, scan.tried as int);
    if free.contains(port0) {
        assert(port == port0);
        let i = scan.tried as int;
        assert(scan.tried <= i < scan.max_tries && port == candidate_port(scan.start, i));
    } else {
        let rest = PortScan { tried: (scan.tried + 1) as u16, ..scan };
        lemma_outcome_from(rest, free, port);
        let i = choose|i: int|
            rest.tried <= i < rest.max_tries && port == candidate_port(rest.start, i) && forall|
                j: int,
            |
                rest.tried <= j < i ==> !free.contains(#[trigger] candidate_port(rest.start, j));
        assert forall|j: int| scan.tried <= j < i implies !free.contains(
            #[trigger] candidate_port(scan.start, j),
        ) by {
            if j > scan.tried {
                assert(rest.tried <= j < i);
            }
        }
    }
}

/// When the scan settles on a port, that port can be bound and is the first
/// such among the candidates: the `i`-th, with every earlier one occupied.
pub proof fn lemma_first_free_chosen(start_port: u16, max_tries: u16, free: Set<u16>, port: u16)
    requires
        scan_outcome(PortScan { start: start_port, max_tries, tried: 0 }, free) == Some(port),
    ensures
        free.contains(port),
        exists|i: int|
            0 <= i < max_tries && port == candidate_port(start_port, i) && forall|j: int|
                0 <= j < i ==> !free.contains(#[trigger] candidate_port(start_port, j)),
{
    lemma_outcome_from(PortScan { start: start_port, max_tries, tried: 0 }, free, port);
}

/// Each step of a scan driven by bind results keeps to `scan_outcome`: the
/// first step of a fresh scan gives up exactly when the outcome is `None`, and
/// after a `TryBind` of the last candidate, reporting whether it lies in `free`
/// leads to `Serve` of the outcome, to `GiveUp` when there is none, or to the
/// next `TryBind` with the same outcome still ahead.
pub proof fn lemma_steps_follow_outcome(scan: PortScan, free: Set<u16>)
    ensures
        scan.tried == 0 ==> match scan.try_next() {
            (s, ScanAction::TryBind(p)) => s.rewound() == scan && p == s.last_port() && s.tried > 0,
            (s, ScanAction::GiveUp) => scan_outcome(scan, free) is None,
            _ => false,
        },
        0 < scan.tried <= scan.max_tries ==> match scan.after(free.contains(scan.last_port())) {
            (s, ScanAction::Serve(p)) => scan_outcome(scan.rewound(), free) == Some(p),
            (s, ScanAction::GiveUp) => scan_outcome(scan.rewound(), free) is None,
            (s, ScanAction::TryBind(p)) => scan_outcome(scan.rewound(), free) == scan_outcome(
                s.rewound(),
                free,
            ) && p == s.last_port() && 0 < s.tried <= s.max_tries,
        },
{
    if 0 < scan.tried <= scan.max_tries {
        let r = scan.rewound();
        assert(PortScan { tried: (r.tried + 1) as u16, ..r } == scan);
        if !free.contains(scan.last_port()) && scan.tried < scan.max_tries {
            let s = scan.advance().0;
            assert(s.rewound() == scan);
        }
    }
    if scan.tried == 0 && scan.max_tries > 0 {
        assert(scan.advance().0.rewound() == scan);
    }
}

} // verus!
