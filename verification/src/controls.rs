//! Typed control stores.
//!
//! One store per registered address. Each store owns its configuration
//! (output bounds, or a size) and the latest decoded value; defaults supplied
//! at registration are already expressed in output units and are returned
//! verbatim until the first matching inbound message arrives. Changing a
//! bound later never rescales the currently stored value.

use vstd::prelude::*;

use crate::address::array_index_within;
use crate::address::array_suffix;
use crate::fixed::Fx;
use crate::fixed::FxPair;
use crate::fixed::remap;
use crate::fixed::remap_fx;

verus! {

/// A momentary or toggle switch: an inbound payload strictly above zero turns
/// it on, any other payload turns it off. The initial payload equivalent of
/// the default is kept alongside and never changes.
pub struct TouchOscButton {
    pub state: bool,
    pub value: Fx,
}

impl TouchOscButton {
    pub open spec fn spec_new(default: bool) -> TouchOscButton {
        TouchOscButton {
            state: default,
            value: if default {
                Fx::spec_one()
            } else {
                Fx::spec_zero()
            },
        }
    }

    pub fn new(default: bool) -> (r: TouchOscButton)
        ensures
            r == TouchOscButton::spec_new(default),
    {
        let value = if default {
            Fx::one()
        } else {
            Fx::zero()
        };
        TouchOscButton { state: default, value }
    }

    /// The switch-thresholding decode rule: strictly positive means on.
    pub fn set_state(&mut self, value: Fx)
        ensures
            final(self).state == (value.units > 0),
            final(self).value == old(self).value,
    {
        self.state = value.units > 0;
    }

    pub fn state(&self) -> (r: bool)
        ensures
            r == self.state,
    {
        self.state
    }

    pub fn value(&self) -> (r: Fx)
        ensures
            r == self.value,
    {
        self.value
    }
}

/// A continuous scalar control: stores the inbound normalized payload
/// rescaled into the configured output interval.
pub struct TouchOscFader {
    pub min: Fx,
    pub max: Fx,
    pub value: Fx,
}

impl TouchOscFader {
    pub open spec fn spec_new(min: Fx, max: Fx, default: Fx) -> TouchOscFader {
        TouchOscFader { min, max, value: default }
    }

    pub fn new(min: Fx, max: Fx, default: Fx) -> (r: TouchOscFader)
        ensures
            r == TouchOscFader::spec_new(min, max, default),
    {
        TouchOscFader { min, max, value: default }
    }

    pub fn set_min(&mut self, min: Fx)
        ensures
            *final(self) == (TouchOscFader { min, ..*old(self) }),
    {
        self.min = min;
    }

    pub fn set_max(&mut self, max: Fx)
        ensures
            *final(self) == (TouchOscFader { max, ..*old(self) }),
    {
        self.max = max;
    }

    /// Decode an inbound normalized payload: rescale and store it.
    pub fn set_value(&mut self, value: Fx)
        ensures
            *final(self) == (TouchOscFader {
                value: remap_fx(value, old(self).min, old(self).max),
                ..*old(self)
            }),
    {
        self.value = self.range(value);
    }

    /// The configured rescale of a normalized payload, without storing it.
    pub fn range(&self, arg: Fx) -> (r: Fx)
        ensures
            r == remap_fx(arg, self.min, self.max),
    {
        remap(arg, self.min, self.max)
    }

    pub fn value(&self) -> (r: Fx)
        ensures
            r == self.value,
    {
        self.value
    }
}

/// A continuous-angle scalar control; decodes exactly as a fader.
pub struct TouchOscEncoder {
    pub min: Fx,
    pub max: Fx,
    pub value: Fx,
}

impl TouchOscEncoder {
    pub open spec fn spec_new(min: Fx, max: Fx, default: Fx) -> TouchOscEncoder {
        TouchOscEncoder { min, max, value: default }
    }

    pub fn new(min: Fx, max: Fx, default: Fx) -> (r: TouchOscEncoder)
        ensures
            r == TouchOscEncoder::spec_new(min, max, default),
    {
        TouchOscEncoder { min, max, value: default }
    }

    pub fn set_min(&mut self, min: Fx)
        ensures
            *final(self) == (TouchOscEncoder { min, ..*old(self) }),
    {
        self.min = min;
    }

    pub fn set_max(&mut self, max: Fx)
        ensures
            *final(self) == (TouchOscEncoder { max, ..*old(self) }),
    {
        self.max = max;
    }

    pub fn set_value(&mut self, arg: Fx)
        ensures
            *final(self) == (TouchOscEncoder {
                value: remap_fx(arg, old(self).min, old(self).max),
                ..*old(self)
            }),
    {
        self.value = self.range(arg);
    }

    pub fn range(&self, arg: Fx) -> (r: Fx)
        ensures
            r == remap_fx(arg, self.min, self.max),
    {
        remap(arg, self.min, self.max)
    }

    pub fn value(&self) -> (r: Fx)
        ensures
            r == self.value,
    {
        self.value
    }
}

/// A bounded radial control; decodes exactly as a fader.
pub struct TouchOscRadial {
    pub min: Fx,
    pub max: Fx,
    pub value: Fx,
}

impl TouchOscRadial {
    pub open spec fn spec_new(min: Fx, max: Fx, default: Fx) -> TouchOscRadial {
        TouchOscRadial { min, max, value: default }
    }

    pub fn new(min: Fx, max: Fx, default: Fx) -> (r: TouchOscRadial)
        ensures
            r == TouchOscRadial::spec_new(min, max, default),
    {
        TouchOscRadial { min, max, value: default }
    }

    pub fn set_min(&mut self, min: Fx)
        ensures
            *final(self) == (TouchOscRadial { min, ..*old(self) }),
    {
        self.min = min;
    }

    pub fn set_max(&mut self, max: Fx)
        ensures
            *final(self) == (TouchOscRadial { max, ..*old(self) }),
    {
        self.max = max;
    }

    pub fn set_value(&mut self, value: Fx)
        ensures
            *final(self) == (TouchOscRadial {
                value: remap_fx(value, old(self).min, old(self).max),
                ..*old(self)
            }),
    {
        self.value = self.range(value);
    }

    pub fn range(&self, arg: Fx) -> (r: Fx)
        ensures
            r == remap_fx(arg, self.min, self.max),
    {
        remap(arg, self.min, self.max)
    }

    pub fn value(&self) -> (r: Fx)
        ensures
            r == self.value,
    {
        self.value
    }
}

/// A polar pair: a radius and an angle, each rescaled with its own bounds.
pub struct TouchOscRadar {
    pub values: FxPair,
    pub rad_min: Fx,
    pub rad_max: Fx,
    pub rot_min: Fx,
    pub rot_max: Fx,
}

impl TouchOscRadar {
    pub open spec fn spec_new(rad: (Fx, Fx, Fx), rot: (Fx, Fx, Fx)) -> TouchOscRadar {
        TouchOscRadar {
            values: FxPair { x: rad.2, y: rot.2 },
            rad_min: rad.0,
            rad_max: rad.1,
            rot_min: rot.0,
            rot_max: rot.1,
        }
    }

    pub fn new(rad: (Fx, Fx, Fx), rot: (Fx, Fx, Fx)) -> (r: TouchOscRadar)
        ensures
            r == TouchOscRadar::spec_new(rad, rot),
    {
        TouchOscRadar {
            values: FxPair { x: rad.2, y: rot.2 },
            rad_min: rad.0,
            rad_max: rad.1,
            rot_min: rot.0,
            rot_max: rot.1,
        }
    }

    pub fn set_rad_min(&mut self, rad_min: Fx)
        ensures
            *final(self) == (TouchOscRadar { rad_min, ..*old(self) }),
    {
        self.rad_min = rad_min;
    }

    pub fn set_rad_max(&mut self, rad_max: Fx)
        ensures
            *final(self) == (TouchOscRadar { rad_max, ..*old(self) }),
    {
        self.rad_max = rad_max;
    }

    pub fn set_rot_min(&mut self, rot_min: Fx)
        ensures
            *final(self) == (TouchOscRadar { rot_min, ..*old(self) }),
    {
        self.rot_min = rot_min;
    }

    pub fn set_rot_max(&mut self, rot_max: Fx)
        ensures
            *final(self) == (TouchOscRadar { rot_max, ..*old(self) }),
    {
        self.rot_max = rot_max;
    }

    /// Decode an inbound pair: the first payload is the radius, the second
    /// the angle, each rescaled with its own bounds.
    pub fn set_values(&mut self, args: FxPair)
        ensures
            *final(self) == (TouchOscRadar {
                values: FxPair {
                    x: remap_fx(args.x, old(self).rad_min, old(self).rad_max),
                    y: remap_fx(args.y, old(self).rot_min, old(self).rot_max),
                },
                ..*old(self)
            }),
    {
        let x = self.rad_range(args.x);
        let y = self.rot_range(args.y);
        self.values = FxPair { x, y };
    }

    pub fn rad_range(&self, arg: Fx) -> (r: Fx)
        ensures
            r == remap_fx(arg, self.rad_min, self.rad_max),
    {
        remap(arg, self.rad_min, self.rad_max)
    }

    pub fn rot_range(&self, arg: Fx) -> (r: Fx)
        ensures
            r == remap_fx(arg, self.rot_min, self.rot_max),
    {
        remap(arg, self.rot_min, self.rot_max)
    }

    pub fn values(&self) -> (r: FxPair)
        ensures
            r == self.values,
    {
        self.values
    }
}

/// A discrete index control: the inbound integer is stored verbatim, with no
/// rescaling. By convention the value lies below `size`, but the store does
/// not police that.
pub struct TouchOscRadio {
    pub size: usize,
    pub value: i32,
}

impl TouchOscRadio {
    pub open spec fn spec_new(size: usize, default: i32) -> TouchOscRadio {
        TouchOscRadio { size, value: default }
    }

    pub fn new(size: usize, default: i32) -> (r: TouchOscRadio)
        ensures
            r == TouchOscRadio::spec_new(size, default),
    {
        TouchOscRadio { size, value: default }
    }

    pub fn set_value(&mut self, value: i32)
        ensures
            *final(self) == (TouchOscRadio { value, ..*old(self) }),
    {
        self.value = value;
    }

    pub fn size(&self) -> (r: usize)
        ensures
            r == self.size,
    {
        self.size
    }

    pub fn value(&self) -> (r: i32)
        ensures
            r == self.value,
    {
        self.value
    }
}

/// A bounded two-dimensional point: both coordinates are rescaled with the
/// same shared bounds.
pub struct TouchOscXY {
    pub min: Fx,
    pub max: Fx,
    pub values: FxPair,
}

impl TouchOscXY {
    pub open spec fn spec_new(min: Fx, max: Fx, default: Fx) -> TouchOscXY {
        TouchOscXY { min, max, values: FxPair { x: default, y: default } }
    }

    pub fn new(min: Fx, max: Fx, default: Fx) -> (r: TouchOscXY)
        ensures
            r == TouchOscXY::spec_new(min, max, default),
    {
        TouchOscXY { min, max, values: FxPair { x: default, y: default } }
    }

    pub fn set_min(&mut self, min: Fx)
        ensures
            *final(self) == (TouchOscXY { min, ..*old(self) }),
    {
        self.min = min;
    }

    pub fn set_max(&mut self, max: Fx)
        ensures
            *final(self) == (TouchOscXY { max, ..*old(self) }),
    {
        self.max = max;
    }

    /// Decode an inbound pair: both coordinates rescaled with the shared
    /// bounds.
    pub fn set_values(&mut self, args: FxPair)
        ensures
            *final(self) == (TouchOscXY {
                values: FxPair {
                    x: remap_fx(args.x, old(self).min, old(self).max),
                    y: remap_fx(args.y, old(self).min, old(self).max),
                },
                ..*old(self)
            }),
    {
        let x = self.range(args.x);
        let y = self.range(args.y);
        self.values = FxPair { x, y };
    }

    pub fn range(&self, arg: Fx) -> (r: Fx)
        ensures
            r == remap_fx(arg, self.min, self.max),
    {
        remap(arg, self.min, self.max)
    }

    pub fn values(&self) -> (r: FxPair)
        ensures
            r == self.values,
    {
        self.values
    }
}

/// A rescale-and-store on one fader of a grid: the sub-store named by the
/// index is updated, every other sub-store is untouched. Indices are 1-based;
/// one outside the grid (or no index at all) leaves the grid unchanged.
pub open spec fn grid_set_spec(faders: Seq<TouchOscFader>, idx: Option<int>, x: Fx) -> Seq<
    TouchOscFader,
> {
    match idx {
        Some(n) => if 1 <= n <= faders.len() {
            faders.update(
                n - 1,
                TouchOscFader { value: remap_fx(x, faders[n - 1].min, faders[n - 1].max), ..faders[n - 1] },
            )
        } else {
            faders
        },
        None => faders,
    }
}

/// A grouped-scalar array: `size` independent fader sub-stores reached
/// through addresses `base/1` to `base/size`.
pub struct TouchOscGrid {
    pub base_addr: String,
    pub faders: Vec<TouchOscFader>,
}

impl TouchOscGrid {
    pub fn new(base_addr: &str, size: usize, min: Fx, max: Fx, default: Fx) -> (r: TouchOscGrid)
        ensures
            r.base_addr@ == base_addr@,
            r.faders@ =~= Seq::new(size as nat, |i: int| TouchOscFader::spec_new(min, max, default)),
    {
        let mut faders: Vec<TouchOscFader> = Vec::new();
        let mut i: usize = 0;
        while i < size
            invariant
                i <= size,
                faders@ =~= Seq::new(i as nat, |k: int| TouchOscFader::spec_new(min, max, default)),
            decreases size - i,
        {
            faders.push(TouchOscFader::new(min, max, default));
            i = i + 1;
        }
        TouchOscGrid { base_addr: String::from_str(base_addr), faders }
    }

    pub fn base_addr(&self) -> (r: &str)
        ensures
            r@ == self.base_addr@,
    {
        self.base_addr.as_str()
    }

    /// Decode an inbound payload addressed to one sub-store: if `addr` is
    /// `base/N` for a sub-store that exists, rescale-and-store there; any
    /// other address is a silent no-op.
    pub fn set_value(&mut self, addr: &str, value: Fx)
        ensures
            final(self).base_addr == old(self).base_addr,
            final(self).faders@ == grid_set_spec(
                old(self).faders@,
                array_suffix(old(self).base_addr@, addr@),
                value,
            ),
    {
        let cap = self.faders.len();
        match array_index_within(self.base_addr.as_str(), addr, cap) {
            Some(n) => {
                let f = &mut self.faders[n - 1];
                f.set_value(value);
                proof {
                    assert(final(self).faders@ =~= grid_set_spec(
                        old(self).faders@,
                        array_suffix(old(self).base_addr@, addr@),
                        value,
                    ));
                }
            },
            None => {
                proof {
                    assert(final(self).faders@ =~= grid_set_spec(
                        old(self).faders@,
                        array_suffix(old(self).base_addr@, addr@),
                        value,
                    ));
                }
            },
        }
    }

    /// The current value of the sub-store that `addr` names. The address must
    /// name a sub-store that exists; asking for any other address is a
    /// configuration error.
    pub fn value(&self, addr: &str) -> (r: Fx)
        requires
            array_suffix(self.base_addr@, addr@) is Some,
            1 <= array_suffix(self.base_addr@, addr@)->Some_0 <= self.faders@.len(),
        ensures
            r == self.faders@[array_suffix(self.base_addr@, addr@)->Some_0 - 1].value,
    {
        let cap = self.faders.len();
        match array_index_within(self.base_addr.as_str(), addr, cap) {
            Some(n) => self.faders[n - 1].value(),
            None => {
                proof {
                    assert(false);
                }
                Fx::zero()
            },
        }
    }
}

} // verus!
