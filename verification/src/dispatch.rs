//! Choice of the scanner: the tiers, the slot that holds the active scanner,
//! and the functions that callers use.

use crate::buffer::Buffer;
use crate::fallback;
use crate::model::{escaped, escaped_text};
use crate::vector;
use vstd::prelude::*;
use vstd::string::StringSliceAdditionalSpecFns;
use vstd::utf8::encode_utf8;

verus! {

/// What a probe of the hardware found.
#[derive(Clone, Copy, Debug, PartialEq, Eq, Structural)]
pub struct Capabilities {
    /// The wide vector tier can run.
    pub wide: bool,
    /// The narrow vector tier can run.
    pub narrow: bool,
}

/// The built-in scanners, slowest first.
#[derive(Clone, Copy, Debug, PartialEq, Eq, Structural)]
pub enum Tier {
    Portable,
    Narrow,
    Wide,
}

/// The tier that is chosen for given capabilities: the widest that can run.
pub open spec fn default_tier(caps: Capabilities) -> Tier {
    if caps.wide {
        Tier::Wide
    } else if caps.narrow {
        Tier::Narrow
    } else {
        Tier::Portable
    }
}

/// Chooses the tier. Nothing but the capabilities enters the choice.
pub fn select_tier(caps: Capabilities) -> (tier: Tier)
    ensures
        tier == default_tier(caps),
{
    if caps.wide {
        Tier::Wide
    } else if caps.narrow {
        Tier::Narrow
    } else {
        Tier::Portable
    }
}

impl Tier {
    /// Runs the scanner of this tier. All tiers append the same bytes: those
    /// that the reference scanner appends.
    pub fn run(self, feed: &str, buf: &mut Buffer)
        ensures
            final(buf).bytes() == old(buf).bytes() + escaped(feed.spec_bytes()),
            final(buf)@ == old(buf)@ + escaped_text(feed@),
    {
        match self {
            Tier::Portable => fallback::escape(feed, buf),
            Tier::Narrow => vector::escape_narrow(feed, buf),
            Tier::Wide => vector::escape_wide(feed, buf),
        }
    }
}

/// True when `f` can be called on every text and every buffer.
pub open spec fn accepts_all<F: Fn(&str, &mut Buffer)>(f: F) -> bool {
    forall|s: &str, b: &mut Buffer| call_requires(f, (s, b))
}

/// A scanner that the slot can hold: a built-in tier, or a function that the
/// host supplied. Either is a whole implementation.
pub enum Scanner<F> {
    Tier(Tier),
    Custom(F),
}

impl<F: Fn(&str, &mut Buffer)> Scanner<F> {
    /// A host function has to take every input.
    pub open spec fn wf(&self) -> bool {
        self matches Scanner::Custom(f) ==> accepts_all(*f)
    }

    /// Runs the scanner: a tier appends the escaped input, a host function
    /// does what it does.
    pub fn run(&self, feed: &str, buf: &mut Buffer)
        requires
            self.wf(),
        ensures
            self is Tier ==> final(buf)@ == old(buf)@ + escaped_text(feed@),
            self is Tier ==> final(buf).bytes() == old(buf).bytes() + escaped(feed.spec_bytes()),
            self matches Scanner::Custom(fun) ==> exists|b: &mut Buffer|
                *b == *old(buf) && *final(b) == *final(buf) && call_ensures(*fun, (feed, b), ()),
    {
        match self {
            Scanner::Tier(tier) => {
                tier.run(feed, buf);
            },
            Scanner::Custom(fun) => {
                fun(feed, buf);
            },
        }
    }
}

/// Holder of the active scanner. It starts unresolved, is resolved to the
/// default tier by the first use, and can be overridden at any time.
pub struct DispatchSlot<F> {
    caps: Capabilities,
    active: Option<Scanner<F>>,
}

impl<F: Fn(&str, &mut Buffer)> DispatchSlot<F> {
    /// The scanner held, `None` while the slot is unresolved.
    pub closed spec fn active(&self) -> Option<Scanner<F>> {
        self.active
    }

    /// The capabilities that the slot was made with.
    pub closed spec fn capabilities(&self) -> Capabilities {
        self.caps
    }

    /// Whatever the slot holds can be run.
    pub open spec fn wf(&self) -> bool {
        self.active() matches Some(scanner) ==> scanner.wf()
    }

    /// The scanner that the next call runs.
    pub open spec fn resolved(&self) -> Scanner<F> {
        match self.active() {
            Some(scanner) => scanner,
            None => Scanner::Tier(default_tier(self.capabilities())),
        }
    }

    /// An unresolved slot for hardware with the given capabilities.
    pub fn new(caps: Capabilities) -> (slot: Self)
        ensures
            slot.wf(),
            slot.active() is None,
            slot.capabilities() == caps,
    {
        DispatchSlot { caps, active: None }
    }

    /// True once a scanner has been published.
    pub fn is_resolved(&self) -> (r: bool)
        ensures
            r == self.active() is Some,
    {
        self.active.is_some()
    }

    /// The built-in tier that is active, if one is.
    pub fn tier(&self) -> (t: Option<Tier>)
        ensures
            t == match self.active() {
                Some(Scanner::Tier(tier)) => Some(tier),
                _ => None,
            },
    {
        match &self.active {
            Some(Scanner::Tier(tier)) => Some(*tier),
            _ => None,
        }
    }

    /// The scanner held, if the slot is resolved.
    pub fn current(&self) -> (r: Option<&Scanner<F>>)
        ensures
            match r {
                Some(scanner) => self.active() == Some(*scanner),
                None => self.active() is None,
            },
    {
        self.active.as_ref()
    }

    /// Publishes the default tier if the slot is unresolved. A resolved slot
    /// is left as it is: nothing is detected twice, and an override stays.
    pub fn resolve(&mut self)
        ensures
            final(self).capabilities() == old(self).capabilities(),
            final(self).active() == Some(old(self).resolved()),
            old(self).wf() ==> final(self).wf(),
    {
        if self.active.is_none() {
            self.active = Some(Scanner::Tier(select_tier(self.caps)));
        }
    }
}

/// A run of calls on one slot with no override between them: every state is
/// what a call leaves of the state before it.
pub open spec fn is_run_of_calls<F: Fn(&str, &mut Buffer)>(states: Seq<DispatchSlot<F>>) -> bool {
    forall|i: int|
        0 < i < states.len() ==> {
            &&& (#[trigger] states[i]).capabilities() == states[i - 1].capabilities()
            &&& states[i].active() == Some(states[i - 1].resolved())
        }
}

/// Once the slot holds a scanner, the default tier or a host function, every
/// later call finds that scanner and runs it, however many calls there are:
/// only an override changes a resolved slot.
pub proof fn lemma_scanner_stays<F: Fn(&str, &mut Buffer)>(states: Seq<DispatchSlot<F>>, i: int)
    requires
        is_run_of_calls(states),
        0 <= i < states.len(),
        states[0].active() is Some,
    ensures
        states[i].active() == states[0].active(),
        states[i].resolved() == states[0].resolved(),
        states[i].capabilities() == states[0].capabilities(),
        states[0].wf() ==> states[i].wf(),
    decreases i,
{
    if i > 0 {
        lemma_scanner_stays(states, i - 1);
        assert(states[i].active() == Some(states[i - 1].resolved()));
    }
}

/// The first call on an unresolved slot publishes the default tier of the
/// slot's capabilities, and every call of the run, the first one too, runs
/// that tier.
pub proof fn lemma_first_use_decides<F: Fn(&str, &mut Buffer)>(
    states: Seq<DispatchSlot<F>>,
    i: int,
)
    requires
        is_run_of_calls(states),
        0 <= i < states.len(),
        states[0].active() is None,
    ensures
        states[i].resolved() == Scanner::<F>::Tier(default_tier(states[0].capabilities())),
        i > 0 ==> states[i].active() == Some(
            Scanner::<F>::Tier(default_tier(states[0].capabilities())),
        ),
        states[i].capabilities() == states[0].capabilities(),
    decreases i,
{
    if i > 0 {
        lemma_first_use_decides(states, i - 1);
        assert(states[i].active() == Some(states[i - 1].resolved()));
    }
}

/// The default escape function: runs the tier chosen for the slot's
/// capabilities on this input. An unresolved slot is resolved to that tier;
/// a resolved slot is left as it is, an override too.
pub fn escape<F: Fn(&str, &mut Buffer)>(slot: &mut DispatchSlot<F>, feed: &str, buf: &mut Buffer)
    ensures
        final(slot).capabilities() == old(slot).capabilities(),
        final(slot).active() == Some(old(slot).resolved()),
        old(slot).wf() ==> final(slot).wf(),
        final(buf).bytes() == old(buf).bytes() + escaped(feed.spec_bytes()),
        final(buf)@ == old(buf)@ + escaped_text(feed@),
{
    slot.resolve();
    let tier = select_tier(slot.caps);
    tier.run(feed, buf);
}

/// Replaces the active scanner by `fun`. Every later `escape_to_buf` and
/// `escape_to_string` on the slot runs `fun`, until the slot is overridden
/// again.
pub fn register_escape_fn<F: Fn(&str, &mut Buffer)>(slot: &mut DispatchSlot<F>, fun: F)
    requires
        accepts_all(fun),
    ensures
        final(slot).wf(),
        final(slot).capabilities() == old(slot).capabilities(),
        final(slot).active() == Some(Scanner::Custom(fun)),
{
    slot.active = Some(Scanner::Custom(fun));
}

/// Escapes `feed` into `buf` with the active scanner. An unresolved slot is
/// resolved first, and this call already runs the tier chosen.
pub fn escape_to_buf<F: Fn(&str, &mut Buffer)>(
    slot: &mut DispatchSlot<F>,
    feed: &str,
    buf: &mut Buffer,
)
    requires
        old(slot).wf(),
    ensures
        final(slot).wf(),
        final(slot).capabilities() == old(slot).capabilities(),
        final(slot).active() == Some(old(slot).resolved()),
        old(slot).resolved() is Tier ==> final(buf)@ == old(buf)@ + escaped_text(feed@),
        old(slot).resolved() is Tier ==> final(buf).bytes() == old(buf).bytes() + escaped(
            feed.spec_bytes(),
        ),
        old(slot).resolved() matches Scanner::Custom(fun) ==> exists|b: &mut Buffer|
            *b == *old(buf) && *final(b) == *final(buf) && call_ensures(fun, (feed, b), ()),
{
    slot.resolve();
    match slot.current() {
        Some(scanner) => {
            scanner.run(feed, buf);
        },
        // The slot has just been resolved: it holds a scanner.
        None => {},
    }
}

/// Escapes `feed` onto the end of `s` with the active scanner.
pub fn escape_to_string<F: Fn(&str, &mut Buffer)>(
    slot: &mut DispatchSlot<F>,
    feed: &str,
    s: &mut String,
)
    requires
        old(slot).wf(),
    ensures
        final(slot).wf(),
        final(slot).capabilities() == old(slot).capabilities(),
        final(slot).active() == Some(old(slot).resolved()),
        old(slot).resolved() is Tier ==> final(s)@ == old(s)@ + escaped_text(feed@),
        old(slot).resolved() is Tier ==> encode_utf8(final(s)@) == encode_utf8(old(s)@) + escaped(
            feed.spec_bytes(),
        ),
        old(slot).resolved() matches Scanner::Custom(fun) ==> exists|b: &mut Buffer|
            b@ == old(s)@ && final(b)@ == final(s)@ && call_ensures(fun, (feed, b), ()),
{
    let mut taken = String::new();
    std::mem::swap(s, &mut taken);
    let mut buf = Buffer::from(taken);
    escape_to_buf(slot, feed, &mut buf);
    let mut done = buf.into_string();
    std::mem::swap(s, &mut done);
}

} // verus!
