//! The colour the whole interface is currently tinted with.
//!
//! The now playing card already takes its highlight from the cover art; this carries that
//! one colour to everything else that wants it, the statusbar bar, the playing row in a
//! list, and crossfades it when the track changes, so the app takes on the new album's
//! colour rather than snapping to it.
//!
//! Times are in nanoseconds. How two colours are mixed is left to the caller.

use vstd::prelude::*;

use crate::model;
use crate::text;

verus! {

/// How long the tint takes to travel from the old album's colour to the new one.
pub const CROSSFADE: u128 = 700_000_000;
/// Redraws asked for while the crossfade runs, for the case where nothing else is
/// animating: a track changed while playback is paused, say.
pub const FADE_FRAMES: u32 = 14;

/// What the interface is tinted with.
#[derive(Debug)]
pub enum Tint<C> {
    Solid(C),
    /// Part way from one colour to another: a crossfade that has run for `age`.
    Fading { from: C, to: C, age: u128 },
}

/// The cover that is followed and the crossfade that it started.
pub struct State<C> {
    /// The cover being followed, so the same one is not fetched twice.
    pub url: Option<String>,
    /// Where the crossfade started, or `None` to start from the caller's theme.
    pub from: Option<C>,
    /// Where it is heading, or `None` for a cover with no colour worth using.
    pub to: Option<C>,
    pub changed_at: Option<u128>,
}

/// A [`State`] as the contracts speak of it.
#[verifier::ext_equal]
pub struct StateModel<C> {
    pub url: Option<Seq<char>>,
    pub from: Option<C>,
    pub to: Option<C>,
    pub changed_at: Option<u128>,
}

impl<C> View for State<C> {
    type V = StateModel<C>;

    open spec fn view(&self) -> StateModel<C> {
        StateModel {
            url: model::optional_text(self.url),
            from: self.from,
            to: self.to,
            changed_at: self.changed_at,
        }
    }
}

/// How long ago `at` was, at `now`.
pub open spec fn age_at(at: u128, now: u128) -> u128 {
    if now >= at {
        (now - at) as u128
    } else {
        0
    }
}

/// One of two colours.
pub open spec fn or_else<C>(colour: Option<C>, fallback: C) -> C {
    match colour {
        Some(colour) => colour,
        None => fallback,
    }
}

/// The tint at `now`.
pub open spec fn tint_of<C>(state: StateModel<C>, fallback: C, now: u128) -> Tint<C> {
    match state.changed_at {
        None => Tint::Solid(or_else(state.to, fallback)),
        Some(at) => Tint::Fading {
            from: or_else(state.from, fallback),
            to: or_else(state.to, fallback),
            age: age_at(at, now),
        },
    }
}

/// What following a cover comes to.
#[derive(Clone, Copy, PartialEq, Eq, Structural, Debug)]
pub enum Follow {
    /// The cover is the one that was followed already.
    Unchanged,
    /// There is no cover any more.
    Left,
    /// The colour of the cover has to be worked out.
    Resolve,
}

/// The state after the cover at `url` has come into play.
pub open spec fn followed<C>(
    state: StateModel<C>,
    url: Option<Seq<char>>,
    midway: C,
    now: u128,
) -> StateModel<C> {
    if state.url == url {
        state
    } else {
        StateModel { url, from: Some(midway), to: None, changed_at: Some(now) }
    }
}

impl<C: Copy> State<C> {
    /// No cover, no tint.
    pub fn new() -> (state: Self)
        ensures
            state@ == (StateModel::<C> { url: None, from: None, to: None, changed_at: None }),
    {
        State { url: None, from: None, to: None, changed_at: None }
    }

    /// The tint right now, part way through whatever crossfade is running.
    ///
    /// `fallback` is the colour to use where the cover has none of its own, which is the
    /// caller's own theme colour, so a cover that yields nothing changes nothing.
    pub fn current(&self, fallback: C, now: u128) -> (tint: Tint<C>)
        ensures
            tint == tint_of(self@, fallback, now),
    {
        let to = match self.to {
            Some(to) => to,
            None => fallback,
        };
        match self.changed_at {
            None => Tint::Solid(to),
            Some(at) => {
                let from = match self.from {
                    Some(from) => from,
                    None => fallback,
                };
                Tint::Fading { from, to, age: now.saturating_sub(at) }
            },
        }
    }

    /// Where a crossfade that begins now starts from: whatever is on screen, so a change
    /// that lands mid fade carries on from there instead of jumping back. That is the tint
    /// with the caller's own theme colour where no cover has a say.
    pub fn midway(&self, fallback: C, now: u128) -> (tint: Tint<C>)
        ensures
            tint == tint_of(self@, fallback, now),
    {
        self.current(fallback, now)
    }

    /// Note the cover of whatever is playing now. `midway` is the colour that
    /// [`State::midway`] comes to.
    ///
    /// Cheap to call on every draw: it only does anything when the cover changes.
    pub fn follow(&mut self, url: Option<&str>, midway: C, now: u128) -> (step: Follow)
        ensures
            ({
                let wanted = match url {
                    Some(url) => Some(url@),
                    None => None,
                };
                &&& final(self)@ == followed(old(self)@, wanted, midway, now)
                &&& step == (if old(self)@.url == wanted {
                    Follow::Unchanged
                } else if wanted is None {
                    Follow::Left
                } else {
                    Follow::Resolve
                })
            }),
    {
        let same = match (&self.url, url) {
            (Some(old), Some(new)) => text::same(old, new),
            (None, None) => true,
            _ => false,
        };
        if same {
            return Follow::Unchanged;
        }
        self.url = match url {
            Some(url) => Some(url.to_owned()),
            None => None,
        };
        self.from = Some(midway);
        self.to = None;
        self.changed_at = Some(now);
        if url.is_some() {
            Follow::Resolve
        } else {
            Follow::Left
        }
    }

    /// The colour of the cover at `url` has been worked out: if it is still the one being
    /// followed, start the crossfade towards it. A quick skip through a few tracks can land
    /// these out of order. Answers whether the crossfade was started.
    pub fn resolve(&mut self, url: &str, colour: Option<C>, now: u128) -> (started: bool)
        ensures
            started == (old(self)@.url == Some(url@)),
            final(self)@ == (if started {
                StateModel { to: colour, changed_at: Some(now), ..old(self)@ }
            } else {
                old(self)@
            }),
            started ==> forall|fallback: C, later: u128|
                later >= now ==> #[trigger] tint_of(final(self)@, fallback, later)
                    == (Tint::Fading {
                    from: or_else(old(self)@.from, fallback),
                    to: or_else(colour, fallback),
                    age: (later - now) as u128,
                }),
            final(self)@.url == old(self)@.url,
    {
        let current = match &self.url {
            Some(followed) => text::same(followed, url),
            None => false,
        };
        if !current {
            return false;
        }
        self.to = colour;
        self.changed_at = Some(now);
        true
    }
}

/// A cover that yields no colour leaves the theme alone: before any cover was followed, and
/// on both ends of the crossfade when nothing but the theme has been on screen.
pub proof fn law_a_cover_without_a_colour_changes_nothing<C>(
    state: StateModel<C>,
    theme: C,
    now: u128,
)
    requires
        state.to is None,
        state.from is None,
    ensures
        state.changed_at is None ==> tint_of(state, theme, now) == Tint::Solid(theme),
        state.changed_at is Some ==> (tint_of(state, theme, now) matches Tint::Fading { from, to, .. }
            && from == theme && to == theme),
{
}

/// The tint never snaps: whatever was on screen when a cover comes into play or goes, that is
/// on screen right after, and the crossfade sets out from there. `mix` says what a tint looks
/// like; a crossfade that has just begun looks like the colour that it sets out from.
pub proof fn law_a_crossfade_carries_on<C>(
    state: StateModel<C>,
    url: Option<Seq<char>>,
    theme: C,
    now: u128,
    mix: spec_fn(Tint<C>) -> C,
)
    requires
        state.url != url,
        forall|from: C, to: C| #[trigger] mix(Tint::Fading { from, to, age: 0 }) == from,
    ensures
        ({
            let shown = mix(tint_of(state, theme, now));
            let after = followed(state, url, shown, now);
            &&& tint_of(after, theme, now) == (Tint::Fading { from: shown, to: theme, age: 0 })
            &&& mix(tint_of(after, theme, now)) == shown
        }),
{
    let shown = mix(tint_of(state, theme, now));
    assert(mix(Tint::Fading { from: shown, to: theme, age: 0 }) == shown);
}

/// Following the same cover again changes nothing, so it is cheap on every draw.
pub proof fn law_following_twice_is_following_once<C>(
    state: StateModel<C>,
    url: Option<Seq<char>>,
    midway: C,
    again: C,
    now: u128,
    later: u128,
)
    ensures
        followed(followed(state, url, midway, now), url, again, later) == followed(
            state,
            url,
            midway,
            now,
        ),
{
}

} // verus!
