//! How the image lies in the window: view mode, zoom, and pan.
//!
//! Lengths and scales are single-precision numbers, kept here by their bit patterns; the
//! arithmetic on them is the caller's.

use vstd::prelude::*;

verus! {

/// The bit pattern of `0.0`.
pub const ZERO: u32 = 0;

/// The bit pattern of `1.0`.
pub const ONE: u32 = 0x3f80_0000;

#[derive(Clone, Copy, Debug, PartialEq, Eq, Structural)]
pub enum ViewMode {
    Fit,
    OneToOne,
    Manual,
}

/// The state of a view.
pub struct View2d {
    pub natural: (u32, u32),
    pub viewport: (u32, u32),
    pub mode: ViewMode,
    pub manual_scale: u32,
    pub last_manual: Option<u32>,
    pub pan: (u32, u32),
}

impl View2d {
    /// In manual mode the scale is the remembered one.
    pub open spec fn valid(self) -> bool {
        self.mode == ViewMode::Manual ==> self.last_manual == Some(self.manual_scale)
    }

    pub open spec fn initial() -> View2d {
        View2d {
            natural: (ZERO, ZERO),
            viewport: (ZERO, ZERO),
            mode: ViewMode::Fit,
            manual_scale: ONE,
            last_manual: None,
            pan: (ZERO, ZERO),
        }
    }

    pub open spec fn with_viewport(self, w: u32, h: u32) -> View2d {
        View2d { viewport: (w, h), pan: (ZERO, ZERO), ..self }
    }

    pub open spec fn loaded(self, w: u32, h: u32) -> View2d {
        View2d {
            natural: (w, h),
            mode: ViewMode::Fit,
            last_manual: None,
            pan: (ZERO, ZERO),
            ..self
        }
    }

    pub open spec fn with_natural(self, w: u32, h: u32) -> View2d {
        View2d { natural: (w, h), pan: (ZERO, ZERO), ..self }
    }

    pub open spec fn zoomed(self, scale: u32, pan_x: u32, pan_y: u32) -> View2d {
        View2d {
            mode: ViewMode::Manual,
            manual_scale: scale,
            last_manual: Some(scale),
            pan: (pan_x, pan_y),
            ..self
        }
    }

    pub open spec fn panned(self, pan_x: u32, pan_y: u32) -> View2d {
        View2d { pan: (pan_x, pan_y), ..self }
    }

    /// Fit, then one to one, then the remembered manual zoom if there is one, then fit again.
    pub open spec fn cycled(self) -> View2d {
        let next = match self.mode {
            ViewMode::Fit => ViewMode::OneToOne,
            ViewMode::OneToOne => if self.last_manual is Some {
                ViewMode::Manual
            } else {
                ViewMode::Fit
            },
            ViewMode::Manual => ViewMode::Fit,
        };
        View2d {
            mode: next,
            manual_scale: if next == ViewMode::Manual {
                self.last_manual->0
            } else {
                self.manual_scale
            },
            pan: (ZERO, ZERO),
            ..self
        }
    }

    pub open spec fn fitting(self) -> View2d {
        View2d { mode: ViewMode::Fit, pan: (ZERO, ZERO), ..self }
    }

    /// The scale in effect, where `fit` is the one that fits the image into the window.
    pub open spec fn scale(self, fit: u32) -> u32 {
        match self.mode {
            ViewMode::Fit => fit,
            ViewMode::OneToOne => ONE,
            ViewMode::Manual => self.manual_scale,
        }
    }
}

/// The number with this bit pattern is zero or less. Nothing that is not a number is.
pub open spec fn zero_or_less(bits: u32) -> bool {
    bits == 0 || 0x8000_0000 <= bits <= 0xff80_0000
}

fn is_zero_or_less(bits: u32) -> (r: bool)
    ensures
        r == zero_or_less(bits),
{
    bits == 0 || (0x8000_0000 <= bits && bits <= 0xff80_0000)
}

/// A view of an image in a window.
#[derive(Debug)]
pub struct ViewState {
    natural: (u32, u32),
    viewport: (u32, u32),
    mode: ViewMode,
    manual_scale: u32,
    last_manual: Option<u32>,
    pan: (u32, u32),
}

impl View for ViewState {
    type V = View2d;

    closed spec fn view(&self) -> View2d {
        View2d {
            natural: self.natural,
            viewport: self.viewport,
            mode: self.mode,
            manual_scale: self.manual_scale,
            last_manual: self.last_manual,
            pan: self.pan,
        }
    }
}

impl Default for ViewState {
    fn default() -> (r: ViewState)
        ensures
            r@ == View2d::initial(),
    {
        ViewState::new()
    }
}

impl ViewState {
    #[verifier::type_invariant]
    closed spec fn well_formed(&self) -> bool {
        self@.valid()
    }

    pub fn new() -> (r: ViewState)
        ensures
            r@ == View2d::initial(),
    {
        ViewState {
            natural: (ZERO, ZERO),
            viewport: (ZERO, ZERO),
            mode: ViewMode::Fit,
            manual_scale: ONE,
            last_manual: None,
            pan: (ZERO, ZERO),
        }
    }

    /// Updates the viewport size. Pan is reset; callers that want to preserve it across
    /// resizes save and restore it themselves.
    pub fn set_viewport(&mut self, w: u32, h: u32)
        ensures
            final(self)@ == old(self)@.with_viewport(w, h),
    {
        proof {
            use_type_invariant(&*self);
        }
        self.viewport = (w, h);
        self.pan = (ZERO, ZERO);
    }

    /// For when the displayed image changes: back to fit, without pan and without a
    /// remembered manual zoom.
    pub fn load(&mut self, nat_w: u32, nat_h: u32)
        ensures
            final(self)@ == old(self)@.loaded(nat_w, nat_h),
    {
        proof {
            use_type_invariant(&*self);
        }
        self.natural = (nat_w, nat_h);
        self.mode = ViewMode::Fit;
        self.pan = (ZERO, ZERO);
        self.last_manual = None;
    }

    /// For when the natural dimensions change but the same image is shown, as after a
    /// quarter turn: keeps mode and manual zoom, recenters.
    pub fn set_natural(&mut self, nat_w: u32, nat_h: u32)
        ensures
            final(self)@ == old(self)@.with_natural(nat_w, nat_h),
    {
        proof {
            use_type_invariant(&*self);
        }
        self.natural = (nat_w, nat_h);
        self.pan = (ZERO, ZERO);
    }

    /// Whether image and window both have an area, so that there is a scale that fits one
    /// into the other.
    pub fn has_area(&self) -> (r: bool)
        ensures
            r == !(zero_or_less(self@.natural.0) || zero_or_less(self@.natural.1) || zero_or_less(
                self@.viewport.0,
            ) || zero_or_less(self@.viewport.1)),
    {
        !(is_zero_or_less(self.natural.0) || is_zero_or_less(self.natural.1) || is_zero_or_less(
            self.viewport.0,
        ) || is_zero_or_less(self.viewport.1))
    }

    /// The scale in effect, where `fit` is the one that fits the image into the window.
    pub fn scale(&self, fit: u32) -> (r: u32)
        ensures
            r == self@.scale(fit),
    {
        match self.mode {
            ViewMode::Fit => fit,
            ViewMode::OneToOne => ONE,
            ViewMode::Manual => self.manual_scale,
        }
    }

    pub fn mode(&self) -> (r: ViewMode)
        ensures
            r == self@.mode,
    {
        self.mode
    }

    pub fn natural(&self) -> (r: (u32, u32))
        ensures
            r == self@.natural,
    {
        self.natural
    }

    pub fn viewport(&self) -> (r: (u32, u32))
        ensures
            r == self@.viewport,
    {
        self.viewport
    }

    pub fn pan_offset(&self) -> (r: (u32, u32))
        ensures
            r == self@.pan,
    {
        self.pan
    }

    pub fn last_manual(&self) -> (r: Option<u32>)
        ensures
            r == self@.last_manual,
    {
        self.last_manual
    }

    /// Goes to a manual scale with the given pan, and remembers the scale.
    pub fn zoom(&mut self, scale: u32, pan_x: u32, pan_y: u32)
        ensures
            final(self)@ == old(self)@.zoomed(scale, pan_x, pan_y),
    {
        *self =
        ViewState {
            natural: self.natural,
            viewport: self.viewport,
            mode: ViewMode::Manual,
            manual_scale: scale,
            last_manual: Some(scale),
            pan: (pan_x, pan_y),
        };
    }

    /// Goes to the given pan.
    pub fn pan(&mut self, pan_x: u32, pan_y: u32)
        ensures
            final(self)@ == old(self)@.panned(pan_x, pan_y),
    {
        proof {
            use_type_invariant(&*self);
        }
        self.pan = (pan_x, pan_y);
    }

    /// Fit, then one to one, then the remembered manual zoom if there is one, then fit
    /// again; recenters.
    pub fn cycle_mode(&mut self)
        ensures
            final(self)@ == old(self)@.cycled(),
    {
        proof {
            use_type_invariant(&*self);
        }
        let (mode, manual_scale): (ViewMode, u32) = match self.mode {
            ViewMode::Fit => (ViewMode::OneToOne, self.manual_scale),
            ViewMode::OneToOne => match self.last_manual {
                Some(s) => (ViewMode::Manual, s),
                None => (ViewMode::Fit, self.manual_scale),
            },
            ViewMode::Manual => (ViewMode::Fit, self.manual_scale),
        };
        *self =
        ViewState {
            natural: self.natural,
            viewport: self.viewport,
            mode,
            manual_scale,
            last_manual: self.last_manual,
            pan: (ZERO, ZERO),
        };
    }

    /// Back to fit; recenters.
    pub fn reset_fit(&mut self)
        ensures
            final(self)@ == old(self)@.fitting(),
    {
        proof {
            use_type_invariant(&*self);
        }
        self.mode = ViewMode::Fit;
        self.pan = (ZERO, ZERO);
    }
}

/// Every operation keeps a view valid.
pub proof fn law_views_stay_valid(v: View2d, a: u32, b: u32, scale: u32)
    requires
        v.valid(),
    ensures
        View2d::initial().valid(),
        v.with_viewport(a, b).valid(),
        v.loaded(a, b).valid(),
        v.with_natural(a, b).valid(),
        v.zoomed(scale, a, b).valid(),
        v.panned(a, b).valid(),
        v.cycled().valid(),
        v.fitting().valid(),
{
}

/// With a remembered manual zoom the modes go round in three steps, without one in two; only
/// the pan is lost.
pub proof fn law_cycling_goes_round(v: View2d)
    requires
        v.valid(),
    ensures
        v.last_manual is Some ==> v.cycled().cycled().cycled() == (View2d {
            manual_scale: v.last_manual->0,
            ..v.panned(ZERO, ZERO)
        }),
        v.last_manual is None ==> v.cycled().cycled() == v.panned(ZERO, ZERO),
{
}

/// The order of the modes: from fit to one to one, from there to the remembered manual zoom
/// at its scale, or to fit where none is remembered, and from manual to fit. The image is
/// centered, and a full round brings back mode and scale.
pub proof fn law_cycling_order(v: View2d, fit: u32)
    requires
        v.valid(),
    ensures
        v.mode == ViewMode::Fit ==> v.cycled().mode == ViewMode::OneToOne,
        v.mode == ViewMode::Manual ==> v.cycled().mode == ViewMode::Fit,
        v.mode == ViewMode::OneToOne ==> match v.last_manual {
            Some(scale) => v.cycled().mode == ViewMode::Manual && v.cycled().scale(fit) == scale,
            None => v.cycled().mode == ViewMode::Fit,
        },
        v.cycled().pan == (ZERO, ZERO),
        v.cycled().last_manual == v.last_manual,
        ({
            let round = if v.last_manual is Some {
                v.cycled().cycled().cycled()
            } else {
                v.cycled().cycled()
            };
            round.mode == v.mode && round.scale(fit) == v.scale(fit)
        }),
{
}

/// A manual zoom survives going back to fit: cycling on twice brings it back.
pub proof fn law_cycling_restores_the_zoom(v: View2d, scale: u32, x: u32, y: u32, fit: u32)
    ensures
        v.zoomed(scale, x, y).scale(fit) == scale,
        v.zoomed(scale, x, y).fitting().mode == ViewMode::Fit,
        v.zoomed(scale, x, y).fitting().last_manual == Some(scale),
        v.zoomed(scale, x, y).fitting().cycled().mode == ViewMode::OneToOne,
        v.zoomed(scale, x, y).fitting().cycled().cycled().mode == ViewMode::Manual,
        v.zoomed(scale, x, y).fitting().cycled().cycled().scale(fit) == scale,
{
}

/// A newly loaded image starts at fit, centered, and its modes do not reach the manual zoom
/// of the image before.
pub proof fn law_loading_forgets_the_zoom(v: View2d, w: u32, h: u32, fit: u32)
    ensures
        v.loaded(w, h).natural == (w, h),
        v.loaded(w, h).mode == ViewMode::Fit,
        v.loaded(w, h).scale(fit) == fit,
        v.loaded(w, h).pan == (ZERO, ZERO),
        v.loaded(w, h).last_manual is None,
        v.loaded(w, h).cycled().mode == ViewMode::OneToOne,
        v.loaded(w, h).cycled().cycled() == v.loaded(w, h),
        v.loaded(w, h).viewport == v.viewport,
{
}

/// New natural dimensions of the same image keep mode, window and remembered zoom, and
/// center the image. The scale stays too, except at fit, where it is the one that fits the
/// new dimensions.
pub proof fn law_new_dimensions_keep_the_zoom(
    v: View2d,
    w: u32,
    h: u32,
    fit_before: u32,
    fit_after: u32,
)
    ensures
        v.with_natural(w, h).natural == (w, h),
        v.with_natural(w, h).mode == v.mode,
        v.with_natural(w, h).viewport == v.viewport,
        v.with_natural(w, h).last_manual == v.last_manual,
        v.with_natural(w, h).pan == (ZERO, ZERO),
        v.mode != ViewMode::Fit ==> v.with_natural(w, h).scale(fit_after) == v.scale(fit_before),
        v.mode == ViewMode::Fit ==> v.with_natural(w, h).scale(fit_after) == fit_after,
{
}

/// One call on a view.
pub enum Call {
    SetViewport { w: u32, h: u32 },
    Load { w: u32, h: u32 },
    SetNatural { w: u32, h: u32 },
    Zoom { scale: u32, x: u32, y: u32 },
    Pan { x: u32, y: u32 },
    CycleMode,
    ResetFit,
}

impl View2d {
    /// The view after one call.
    pub open spec fn after(self, call: Call) -> View2d {
        match call {
            Call::SetViewport { w, h } => self.with_viewport(w, h),
            Call::Load { w, h } => self.loaded(w, h),
            Call::SetNatural { w, h } => self.with_natural(w, h),
            Call::Zoom { scale, x, y } => self.zoomed(scale, x, y),
            Call::Pan { x, y } => self.panned(x, y),
            Call::CycleMode => self.cycled(),
            Call::ResetFit => self.fitting(),
        }
    }

    /// The view after a row of calls.
    pub open spec fn after_all(self, calls: Seq<Call>) -> View2d
        decreases calls.len(),
    {
        if calls.len() == 0 {
            self
        } else {
            self.after_all(calls.drop_last()).after(calls.last())
        }
    }

    /// All that can be seen of the two views is the same.
    pub open spec fn looks_like(self, other: View2d) -> bool {
        &&& self.natural == other.natural
        &&& self.viewport == other.viewport
        &&& self.mode == other.mode
        &&& self.last_manual == other.last_manual
        &&& self.pan == other.pan
        &&& forall|fit: u32| #[trigger] self.scale(fit) == other.scale(fit)
    }
}

/// The manual scale of the last zoom since the last load; `before` where there was neither.
pub open spec fn zoom_since_load(before: Option<u32>, calls: Seq<Call>) -> Option<u32>
    decreases calls.len(),
{
    if calls.len() == 0 {
        before
    } else {
        match calls.last() {
            Call::Zoom { scale, .. } => Some(scale),
            Call::Load { .. } => None,
            _ => zoom_since_load(before, calls.drop_last()),
        }
    }
}

/// What is remembered is the scale of the last zoom since the last load, whatever else was
/// called, and a view stays valid throughout.
pub proof fn law_last_zoom_is_remembered(v: View2d, calls: Seq<Call>)
    requires
        v.valid(),
    ensures
        v.after_all(calls).last_manual == zoom_since_load(v.last_manual, calls),
        v.after_all(calls).valid(),
    decreases calls.len(),
{
    if calls.len() > 0 {
        law_last_zoom_is_remembered(v, calls.drop_last());
    }
}

/// Two valid views that look alike do so after the same calls on both.
pub proof fn law_views_stay_alike(v: View2d, u: View2d, calls: Seq<Call>)
    requires
        v.valid(),
        u.valid(),
        v.looks_like(u),
    ensures
        v.after_all(calls).looks_like(u.after_all(calls)),
    decreases calls.len(),
{
    if calls.len() > 0 {
        law_views_stay_alike(v, u, calls.drop_last());
        law_last_zoom_is_remembered(v, calls.drop_last());
        law_last_zoom_is_remembered(u, calls.drop_last());
    }
}

/// A view that loads an image looks like a fresh one that does, now and after any calls that
/// both get: nothing of the image before is left.
pub proof fn law_loading_is_a_fresh_start(v: View2d, w: u32, h: u32, calls: Seq<Call>)
    requires
        v.valid(),
    ensures
        ({
            let fresh = View2d::initial().with_viewport(v.viewport.0, v.viewport.1).loaded(w, h);
            &&& v.loaded(w, h).looks_like(fresh)
            &&& v.loaded(w, h).after_all(calls).looks_like(fresh.after_all(calls))
        }),
{
    let fresh = View2d::initial().with_viewport(v.viewport.0, v.viewport.1).loaded(w, h);
    law_views_stay_alike(v.loaded(w, h), fresh, calls);
}

/// A new view has no image and no window yet, fits, is centered, and remembers no zoom.
pub proof fn law_new_views_are_empty(vs: ViewState)
    requires
        call_ensures(ViewState::new, (), vs) || call_ensures(
            <ViewState as Default>::default,
            (),
            vs,
        ),
    ensures
        vs@.natural == (0u32, 0u32),
        vs@.viewport == (0u32, 0u32),
        vs@.mode == ViewMode::Fit,
        vs@.last_manual is None,
        vs@.pan == (0u32, 0u32),
{
}

/// A window of width `w` and height `h` is that, and is all that changes but for the pan,
/// which goes.
pub proof fn law_viewport_is_what_was_set(vs: &mut ViewState, w: u32, h: u32)
    requires
        call_ensures(ViewState::set_viewport, (vs, w, h), ()),
    ensures
        final(vs)@.viewport == (w, h),
        final(vs)@.pan == (0u32, 0u32),
        final(vs)@.natural == old(vs)@.natural,
        final(vs)@.mode == old(vs)@.mode,
        final(vs)@.manual_scale == old(vs)@.manual_scale,
        final(vs)@.last_manual == old(vs)@.last_manual,
{
}

/// A loaded image of width `w` and height `h` has that natural size. It fits, is centered, and
/// no zoom is remembered. The window stays.
pub proof fn law_loaded_image_has_its_size(vs: &mut ViewState, w: u32, h: u32)
    requires
        call_ensures(ViewState::load, (vs, w, h), ()),
    ensures
        final(vs)@.natural == (w, h),
        final(vs)@.mode == ViewMode::Fit,
        final(vs)@.pan == (0u32, 0u32),
        final(vs)@.last_manual is None,
        final(vs)@.viewport == old(vs)@.viewport,
{
}

/// New natural dimensions `w` and `h` are that, in place of the old ones. The image is
/// centered; mode, zoom and window stay.
pub proof fn law_natural_size_is_what_was_set(vs: &mut ViewState, w: u32, h: u32)
    requires
        call_ensures(ViewState::set_natural, (vs, w, h), ()),
    ensures
        final(vs)@.natural == (w, h),
        final(vs)@.pan == (0u32, 0u32),
        final(vs)@.viewport == old(vs)@.viewport,
        final(vs)@.mode == old(vs)@.mode,
        final(vs)@.manual_scale == old(vs)@.manual_scale,
        final(vs)@.last_manual == old(vs)@.last_manual,
{
}

/// A zoom takes effect and is remembered, at the given pan. Image and window stay.
pub proof fn law_zoom_takes_effect(
    vs: &mut ViewState,
    scale: u32,
    x: u32,
    y: u32,
    fit: u32,
    shown: u32,
)
    requires
        call_ensures(ViewState::zoom, (vs, scale, x, y), ()),
        call_ensures(ViewState::scale, (&*final(vs), fit), shown),
    ensures
        shown == scale,
        final(vs)@.mode == ViewMode::Manual,
        final(vs)@.last_manual == Some(scale),
        final(vs)@.pan == (x, y),
        final(vs)@.natural == old(vs)@.natural,
        final(vs)@.viewport == old(vs)@.viewport,
{
}

/// Panning goes to the given pan and changes nothing else.
pub proof fn law_pan_is_what_was_set(vs: &mut ViewState, x: u32, y: u32)
    requires
        call_ensures(ViewState::pan, (vs, x, y), ()),
    ensures
        final(vs)@.pan == (x, y),
        final(vs)@.natural == old(vs)@.natural,
        final(vs)@.viewport == old(vs)@.viewport,
        final(vs)@.mode == old(vs)@.mode,
        final(vs)@.manual_scale == old(vs)@.manual_scale,
        final(vs)@.last_manual == old(vs)@.last_manual,
{
}

/// Cycling goes from fit to one to one, from there to the remembered zoom at its scale, or to
/// fit where none is remembered, and from manual to fit. The image is centered; its size, the
/// window and what is remembered stay.
pub proof fn law_cycling_takes_effect(vs: &mut ViewState, fit: u32, shown: u32)
    requires
        call_ensures(ViewState::cycle_mode, (vs,), ()),
        call_ensures(ViewState::scale, (&*final(vs), fit), shown),
    ensures
        old(vs)@.mode == ViewMode::Fit ==> final(vs)@.mode == ViewMode::OneToOne && shown
            == 0x3f80_0000,
        old(vs)@.mode == ViewMode::OneToOne && old(vs)@.last_manual is None ==> final(vs)@.mode
            == ViewMode::Fit && shown == fit,
        old(vs)@.mode == ViewMode::OneToOne && old(vs)@.last_manual is Some ==> final(vs)@.mode
            == ViewMode::Manual && Some(shown) == old(vs)@.last_manual,
        old(vs)@.mode == ViewMode::Manual ==> final(vs)@.mode == ViewMode::Fit && shown == fit,
        final(vs)@.pan == (0u32, 0u32),
        final(vs)@.last_manual == old(vs)@.last_manual,
        final(vs)@.natural == old(vs)@.natural,
        final(vs)@.viewport == old(vs)@.viewport,
{
}

/// Going back to fit fits and centers the image; its size, the window and what is remembered
/// stay.
pub proof fn law_reset_fits(vs: &mut ViewState, fit: u32, shown: u32)
    requires
        call_ensures(ViewState::reset_fit, (vs,), ()),
        call_ensures(ViewState::scale, (&*final(vs), fit), shown),
    ensures
        shown == fit,
        final(vs)@.mode == ViewMode::Fit,
        final(vs)@.pan == (0u32, 0u32),
        final(vs)@.last_manual == old(vs)@.last_manual,
        final(vs)@.natural == old(vs)@.natural,
        final(vs)@.viewport == old(vs)@.viewport,
{
}

/// What a view tells of itself is its state; the scale in effect is the fitting one at fit,
/// one at one to one, and the zoomed one otherwise.
pub proof fn law_views_tell_their_state(
    vs: ViewState,
    mode: ViewMode,
    natural: (u32, u32),
    viewport: (u32, u32),
    pan: (u32, u32),
    last_manual: Option<u32>,
    fit: u32,
    shown: u32,
)
    requires
        call_ensures(ViewState::mode, (&vs,), mode),
        call_ensures(ViewState::natural, (&vs,), natural),
        call_ensures(ViewState::viewport, (&vs,), viewport),
        call_ensures(ViewState::pan_offset, (&vs,), pan),
        call_ensures(ViewState::last_manual, (&vs,), last_manual),
        call_ensures(ViewState::scale, (&vs, fit), shown),
    ensures
        mode == vs@.mode,
        natural == vs@.natural,
        viewport == vs@.viewport,
        pan == vs@.pan,
        last_manual == vs@.last_manual,
        mode == ViewMode::Fit ==> shown == fit,
        mode == ViewMode::OneToOne ==> shown == 0x3f80_0000,
        mode == ViewMode::Manual ==> shown == vs@.manual_scale,
        mode == ViewMode::Manual && vs@.valid() ==> last_manual == Some(shown),
{
}

/// There is an area if none of the four lengths is zero, negative or minus infinity, which are
/// the patterns 0 and those from that of minus zero to that of minus infinity.
pub proof fn law_area_takes_four_lengths(vs: ViewState, r: bool)
    requires
        call_ensures(ViewState::has_area, (&vs,), r),
    ensures
        r <==> {
            let (a, b, c, d) = (
                vs@.natural.0,
                vs@.natural.1,
                vs@.viewport.0,
                vs@.viewport.1,
            );
            &&& 0 < a < 0x8000_0000 || a > 0xff80_0000
            &&& 0 < b < 0x8000_0000 || b > 0xff80_0000
            &&& 0 < c < 0x8000_0000 || c > 0xff80_0000
            &&& 0 < d < 0x8000_0000 || d > 0xff80_0000
        },
{
}

} // verus!
