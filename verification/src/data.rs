//! Plain data carried between the parsing collaborator and the core.
//!
//! Every field is a plain value: actor and class identifiers are integers,
//! and the components of a rigid-body transform are stored as the bit
//! patterns of the recording's 32-bit floats. The core never interprets
//! those bits; it only stores and hands them through, so the renderer can
//! recover the original floats exactly.

use vstd::prelude::*;

verus! {

/// Identifier of one live actor instance within the match.
pub type ActorId = u32;

/// Identifier of a per-match archetype or property, resolved from the
/// name table.
pub type ClassId = u32;

/// Which of the two teams an entity belongs to.
#[derive(Debug, Clone, Copy, PartialEq, Eq, Structural)]
pub enum Side {
    First,
    Second,
}

/// Number of colors in each side's palette.
pub const PALETTE_SIZE: u8 = 4;

/// A color drawn from one side's fixed palette: the side picks the palette
/// and `slot` indexes into it (`slot < PALETTE_SIZE`).
#[derive(Debug, Clone, Copy, PartialEq, Eq, Structural)]
pub struct PaletteColor {
    pub side: Side,
    pub slot: u8,
}

/// Components of a 3-vector, each the bit pattern of a 32-bit float.
#[derive(Debug, Clone, Copy, PartialEq, Eq, Structural)]
pub struct Vec3Bits {
    pub x: u32,
    pub y: u32,
    pub z: u32,
}

/// Components of a quaternion, each the bit pattern of a 32-bit float.
#[derive(Debug, Clone, Copy, PartialEq, Eq, Structural)]
pub struct QuatBits {
    pub x: u32,
    pub y: u32,
    pub z: u32,
    pub w: u32,
}

/// A rigid-body transform: position, orientation and velocities of a
/// physical object at a point in time, as raw float bit patterns.
#[derive(Debug, Clone, Copy, PartialEq, Eq)]
pub struct Transform {
    pub location: Vec3Bits,
    pub rotation: QuatBits,
    pub linear_velocity: Option<Vec3Bits>,
    pub angular_velocity: Option<Vec3Bits>,
}

/// One entry of a frame's creation list: a newly created actor, its class,
/// and an optional initial transform.
#[derive(Debug, Clone, Copy, PartialEq, Eq)]
pub struct Creation {
    pub actor: ActorId,
    pub class: ClassId,
    pub initial: Option<Transform>,
}

/// The attribute value carried by an update, reduced to the shapes the
/// core dispatches on; anything else arrives as `Ignored`.
#[derive(Debug, Clone, PartialEq)]
pub enum AttrValue {
    /// A string attribute, e.g. a display name.
    Text(String),
    /// A reference to another actor.
    ActorRef(ActorId),
    /// A new rigid-body transform.
    Rigid(Transform),
    /// A demolish notification naming the victim actor.
    Demolition(ActorId),
    /// Any attribute the core does not act on.
    Ignored,
}

/// Specification-level shape of an [`AttrValue`]: text becomes a sequence
/// of characters.
pub enum AttrValueView {
    Text(Seq<char>),
    ActorRef(ActorId),
    Rigid(Transform),
    Demolition(ActorId),
    Ignored,
}

impl View for AttrValue {
    type V = AttrValueView;

    open spec fn view(&self) -> AttrValueView {
        match self {
            AttrValue::Text(s) => AttrValueView::Text(s@),
            AttrValue::ActorRef(a) => AttrValueView::ActorRef(*a),
            AttrValue::Rigid(t) => AttrValueView::Rigid(*t),
            AttrValue::Demolition(v) => AttrValueView::Demolition(*v),
            AttrValue::Ignored => AttrValueView::Ignored,
        }
    }
}

/// One entry of a frame's update list: the addressed actor, the property's
/// class identifier, and the attribute value.
#[derive(Debug, Clone, PartialEq)]
pub struct Update {
    pub actor: ActorId,
    pub class: ClassId,
    pub value: AttrValue,
}

/// Specification-level shape of an [`Update`].
pub struct UpdateView {
    pub actor: ActorId,
    pub class: ClassId,
    pub value: AttrValueView,
}

impl View for Update {
    type V = UpdateView;

    open spec fn view(&self) -> UpdateView {
        UpdateView { actor: self.actor, class: self.class, value: self.value@ }
    }
}

/// One discrete tick of the recorded match: ordered creation, update and
/// deletion lists, applied in that order.
#[derive(Debug, Clone, PartialEq)]
pub struct Frame {
    pub creations: Vec<Creation>,
    pub updates: Vec<Update>,
    pub deletions: Vec<ActorId>,
}

/// Specification-level shape of a [`Frame`].
pub struct FrameView {
    pub creations: Seq<Creation>,
    pub updates: Seq<UpdateView>,
    pub deletions: Seq<ActorId>,
}

impl View for Frame {
    type V = FrameView;

    open spec fn view(&self) -> FrameView {
        FrameView {
            creations: self.creations@,
            updates: Seq::new(self.updates@.len(), |i: int| self.updates@[i]@),
            deletions: self.deletions@,
        }
    }
}

} // verus!
