use vstd::prelude::*;

verus! {

/// Sample count of a single-sampled image (`VK_SAMPLE_COUNT_1_BIT`).
pub const SAMPLE_COUNT_1: u32 = 1;

/// Size of an image, either following the swapchain surface or given explicitly.
#[derive(Clone, Copy, Debug, PartialEq, Eq, Structural)]
pub enum RenderGraphImageExtents {
    MatchSurface,
    Custom(u32, u32, u32),
}

/// A two-dimensional extent (width, height).
#[derive(Clone, Copy, Debug, PartialEq, Eq, Hash, Structural)]
pub struct Extent2D {
    pub width: u32,
    pub height: u32,
}

impl RenderGraphImageExtents {
    pub open spec fn spec_extent_2d(self, surface: Extent2D) -> Extent2D {
        match self {
            RenderGraphImageExtents::MatchSurface => surface,
            RenderGraphImageExtents::Custom(w, h, _) => Extent2D { width: w, height: h },
        }
    }

    /// The two-dimensional size of the image given the size of the swapchain surface.
    pub fn into_extent_2d(&self, surface: Extent2D) -> (r: Extent2D)
        ensures
            r == self.spec_extent_2d(surface),
    {
        match self {
            RenderGraphImageExtents::MatchSurface => surface,
            RenderGraphImageExtents::Custom(w, h, _) => Extent2D { width: *w, height: *h },
        }
    }
}

/// Every bit set in `b` is set in `a`.
pub open spec fn flags_include(a: u32, b: u32) -> bool {
    a & b == b
}

/// Combining flags keeps every flag of both sides.
pub proof fn lemma_flags_union_includes(a: u32, b: u32)
    ensures
        flags_include(a | b, a),
        flags_include(a | b, b),
{
    assert((a | b) & a == a) by (bit_vector);
    assert((a | b) & b == b) by (bit_vector);
}

/// Inclusion of flags is reflexive and transitive.
pub proof fn lemma_flags_include_order(a: u32, b: u32, c: u32)
    ensures
        flags_include(a, a),
        flags_include(a, b) && flags_include(b, c) ==> flags_include(a, c),
{
    assert(a & a == a) by (bit_vector);
    assert((a & b) == b && (b & c) == c ==> (a & c) == c) by (bit_vector);
}

/// Everything needed to create an image.
#[derive(Clone, Copy, Debug, PartialEq, Eq, Structural)]
pub struct RenderGraphImageSpecification {
    pub samples: u32,
    pub format: i32,
    pub aspect_flags: u32,
    pub usage_flags: u32,
    pub create_flags: u32,
    pub extents: RenderGraphImageExtents,
    pub layer_count: u32,
    pub mip_count: u32,
}

impl RenderGraphImageSpecification {
    /// Two specifications describe compatible images when everything but the flags agrees.
    pub open spec fn spec_can_merge(self, other: Self) -> bool {
        &&& self.samples == other.samples
        &&& self.format == other.format
        &&& self.mip_count == other.mip_count
        &&& self.layer_count == other.layer_count
        &&& self.extents == other.extents
    }

    /// The specification after taking in the flags of `other`.
    pub open spec fn spec_merged(self, other: Self) -> Self {
        RenderGraphImageSpecification {
            aspect_flags: self.aspect_flags | other.aspect_flags,
            usage_flags: self.usage_flags | other.usage_flags,
            create_flags: self.create_flags | other.create_flags,
            ..self
        }
    }

    pub fn can_merge(&self, other: &Self) -> (r: bool)
        ensures
            r == self.spec_can_merge(*other),
    {
        self.samples == other.samples && self.format == other.format && self.mip_count
            == other.mip_count && self.layer_count == other.layer_count && self.extents
            == other.extents
    }

    /// Every aspect, usage and create flag of `other` is set in `self`.
    pub open spec fn spec_has_flags_of(self, other: Self) -> bool {
        &&& flags_include(self.aspect_flags, other.aspect_flags)
        &&& flags_include(self.usage_flags, other.usage_flags)
        &&& flags_include(self.create_flags, other.create_flags)
    }

    /// Merges `other` into `self` when they are compatible; otherwise leaves `self` unchanged.
    pub fn try_merge(&mut self, other: &Self) -> (r: bool)
        ensures
            r == old(self).spec_can_merge(*other),
            r ==> *final(self) == old(self).spec_merged(*other),
            !r ==> *final(self) == *old(self),
    {
        if !self.can_merge(other) {
            return false;
        }
        self.aspect_flags = self.aspect_flags | other.aspect_flags;
        self.usage_flags = self.usage_flags | other.usage_flags;
        self.create_flags = self.create_flags | other.create_flags;
        true
    }
}

/// A merged specification has every flag of both specifications.
pub proof fn lemma_merged_has_flags(s: RenderGraphImageSpecification, o: RenderGraphImageSpecification)
    ensures
        s.spec_merged(o).spec_has_flags_of(s),
        s.spec_merged(o).spec_has_flags_of(o),
{
    lemma_flags_union_includes(s.aspect_flags, o.aspect_flags);
    lemma_flags_union_includes(s.usage_flags, o.usage_flags);
    lemma_flags_union_includes(s.create_flags, o.create_flags);
}

/// Having the flags of another specification is reflexive and transitive.
pub proof fn lemma_has_flags_order(a: RenderGraphImageSpecification, b: RenderGraphImageSpecification, c: RenderGraphImageSpecification)
    ensures
        a.spec_has_flags_of(a),
        a.spec_has_flags_of(b) && b.spec_has_flags_of(c) ==> a.spec_has_flags_of(c),
{
    lemma_flags_include_order(a.aspect_flags, b.aspect_flags, c.aspect_flags);
    lemma_flags_include_order(a.usage_flags, b.usage_flags, c.usage_flags);
    lemma_flags_include_order(a.create_flags, b.create_flags, c.create_flags);
}

/// Partial knowledge about an image: unknown fields are `None`, flags accumulate.
#[derive(Clone, Copy, Debug, PartialEq, Eq, Structural)]
pub struct RenderGraphImageConstraint {
    pub samples: Option<u32>,
    pub format: Option<i32>,
    pub aspect_flags: u32,
    pub usage_flags: u32,
    pub create_flags: u32,
    pub extents: Option<RenderGraphImageExtents>,
    pub layer_count: Option<u32>,
    pub mip_count: Option<u32>,
}

/// Keeps the known value; takes the other one only where nothing is known yet.
pub open spec fn merge_option<T>(a: Option<T>, b: Option<T>) -> Option<T> {
    if a is Some {
        a
    } else {
        b
    }
}

/// Two pieces of knowledge about the same field contradict each other.
pub open spec fn option_conflict<T>(a: Option<T>, b: Option<T>) -> bool {
    a is Some && b is Some && a != b
}

fn merge_option_u32(a: Option<u32>, b: Option<u32>) -> (r: (Option<u32>, bool))
    ensures
        r.0 == merge_option(a, b),
        r.1 == !option_conflict(a, b),
{
    match (a, b) {
        (Some(x), Some(y)) => (a, x == y),
        (Some(_), None) => (a, true),
        (None, _) => (b, true),
    }
}

fn merge_option_i32(a: Option<i32>, b: Option<i32>) -> (r: (Option<i32>, bool))
    ensures
        r.0 == merge_option(a, b),
        r.1 == !option_conflict(a, b),
{
    match (a, b) {
        (Some(x), Some(y)) => (a, x == y),
        (Some(_), None) => (a, true),
        (None, _) => (b, true),
    }
}

fn merge_option_extents(a: Option<RenderGraphImageExtents>, b: Option<RenderGraphImageExtents>) -> (r: (
    Option<RenderGraphImageExtents>,
    bool,
))
    ensures
        r.0 == merge_option(a, b),
        r.1 == !option_conflict(a, b),
{
    match (a, b) {
        (Some(x), Some(y)) => (a, x == y),
        (Some(_), None) => (a, true),
        (None, _) => (b, true),
    }
}

impl RenderGraphImageConstraint {
    /// A constraint that says nothing about the image.
    pub open spec fn spec_empty() -> Self {
        RenderGraphImageConstraint {
            samples: None,
            format: None,
            aspect_flags: 0,
            usage_flags: 0,
            create_flags: 0,
            extents: None,
            layer_count: None,
            mip_count: None,
        }
    }

    pub fn empty() -> (r: Self)
        ensures
            r == Self::spec_empty(),
    {
        RenderGraphImageConstraint {
            samples: None,
            format: None,
            aspect_flags: 0,
            usage_flags: 0,
            create_flags: 0,
            extents: None,
            layer_count: None,
            mip_count: None,
        }
    }

    /// The constraint that fixes every field to the given specification.
    pub open spec fn spec_from_specification(s: RenderGraphImageSpecification) -> Self {
        RenderGraphImageConstraint {
            samples: Some(s.samples),
            format: Some(s.format),
            aspect_flags: s.aspect_flags,
            usage_flags: s.usage_flags,
            create_flags: s.create_flags,
            extents: Some(s.extents),
            layer_count: Some(s.layer_count),
            mip_count: Some(s.mip_count),
        }
    }

    pub fn from_specification(s: &RenderGraphImageSpecification) -> (r: Self)
        ensures
            r == Self::spec_from_specification(*s),
    {
        RenderGraphImageConstraint {
            samples: Some(s.samples),
            format: Some(s.format),
            aspect_flags: s.aspect_flags,
            usage_flags: s.usage_flags,
            create_flags: s.create_flags,
            extents: Some(s.extents),
            layer_count: Some(s.layer_count),
            mip_count: Some(s.mip_count),
        }
    }

    /// No field of `self` contradicts the same field of `other`.
    pub open spec fn spec_can_merge(self, other: Self) -> bool {
        &&& !option_conflict(self.samples, other.samples)
        &&& !option_conflict(self.format, other.format)
        &&& !option_conflict(self.extents, other.extents)
        &&& !option_conflict(self.layer_count, other.layer_count)
        &&& !option_conflict(self.mip_count, other.mip_count)
    }

    /// Fields known in `self` are kept, unknown ones are taken from `other`, flags are combined.
    pub open spec fn spec_merged(self, other: Self) -> Self {
        RenderGraphImageConstraint {
            samples: merge_option(self.samples, other.samples),
            format: merge_option(self.format, other.format),
            aspect_flags: self.aspect_flags | other.aspect_flags,
            usage_flags: self.usage_flags | other.usage_flags,
            create_flags: self.create_flags | other.create_flags,
            extents: merge_option(self.extents, other.extents),
            layer_count: merge_option(self.layer_count, other.layer_count),
            mip_count: merge_option(self.mip_count, other.mip_count),
        }
    }

    /// Merges as much of `other` as possible into `self`. Returns false if some field
    /// contradicted (the value already in `self` is kept for that field).
    pub fn partial_merge(&mut self, other: &Self) -> (r: bool)
        ensures
            *final(self) == old(self).spec_merged(*other),
            r == old(self).spec_can_merge(*other),
    {
        let (samples, ok_samples) = merge_option_u32(self.samples, other.samples);
        let (format, ok_format) = merge_option_i32(self.format, other.format);
        let (extents, ok_extents) = merge_option_extents(self.extents, other.extents);
        let (layer_count, ok_layers) = merge_option_u32(self.layer_count, other.layer_count);
        let (mip_count, ok_mips) = merge_option_u32(self.mip_count, other.mip_count);
        self.samples = samples;
        self.format = format;
        self.extents = extents;
        self.layer_count = layer_count;
        self.mip_count = mip_count;
        self.aspect_flags = self.aspect_flags | other.aspect_flags;
        self.usage_flags = self.usage_flags | other.usage_flags;
        self.create_flags = self.create_flags | other.create_flags;
        ok_samples && ok_format && ok_extents && ok_layers && ok_mips
    }

    /// Merges `other` into `self` only if nothing contradicts; otherwise `self` is unchanged.
    pub fn try_merge(&mut self, other: &Self) -> (r: bool)
        ensures
            r == old(self).spec_can_merge(*other),
            r ==> *final(self) == old(self).spec_merged(*other),
            !r ==> *final(self) == *old(self),
    {
        let mut copy = *self;
        if copy.partial_merge(other) {
            *self = copy;
            true
        } else {
            false
        }
    }

    /// Every aspect, usage and create flag of `other` is set in `self`.
    pub open spec fn spec_has_flags_of(self, other: Self) -> bool {
        &&& flags_include(self.aspect_flags, other.aspect_flags)
        &&& flags_include(self.usage_flags, other.usage_flags)
        &&& flags_include(self.create_flags, other.create_flags)
    }

    /// Replaces the constraint with the one fixed by a full specification.
    pub fn set(&mut self, other: &RenderGraphImageSpecification)
        ensures
            *final(self) == Self::spec_from_specification(*other),
    {
        *self = Self::from_specification(other);
    }

    /// The specification the constraint describes, with defaults for anything unknown except
    /// the format, which cannot be defaulted.
    pub open spec fn spec_to_specification(self) -> Option<RenderGraphImageSpecification> {
        if self.format is None {
            None
        } else {
            Some(
                RenderGraphImageSpecification {
                    samples: if self.samples is Some {
                        self.samples->0
                    } else {
                        SAMPLE_COUNT_1
                    },
                    format: self.format->0,
                    aspect_flags: self.aspect_flags,
                    usage_flags: self.usage_flags,
                    create_flags: self.create_flags,
                    extents: if self.extents is Some {
                        self.extents->0
                    } else {
                        RenderGraphImageExtents::MatchSurface
                    },
                    layer_count: if self.layer_count is Some {
                        self.layer_count->0
                    } else {
                        1
                    },
                    mip_count: if self.mip_count is Some {
                        self.mip_count->0
                    } else {
                        1
                    },
                },
            )
        }
    }

    pub fn try_convert_to_specification(&self) -> (r: Option<RenderGraphImageSpecification>)
        ensures
            r == self.spec_to_specification(),
    {
        match self.format {
            None => None,
            Some(format) => Some(
                RenderGraphImageSpecification {
                    samples: match self.samples {
                        Some(s) => s,
                        None => SAMPLE_COUNT_1,
                    },
                    format,
                    aspect_flags: self.aspect_flags,
                    usage_flags: self.usage_flags,
                    create_flags: self.create_flags,
                    extents: match self.extents {
                        Some(e) => e,
                        None => RenderGraphImageExtents::MatchSurface,
                    },
                    layer_count: match self.layer_count {
                        Some(l) => l,
                        None => 1,
                    },
                    mip_count: match self.mip_count {
                        Some(m) => m,
                        None => 1,
                    },
                },
            ),
        }
    }
}

/// Converting a specification to a constraint and back gives the same specification.
pub proof fn lemma_specification_round_trip(s: RenderGraphImageSpecification)
    ensures
        RenderGraphImageConstraint::spec_from_specification(s).spec_to_specification() == Some(s),
{
}

/// Merging never loses knowledge: every field known before a merge is known, with the same
/// value, after it.
pub proof fn lemma_merge_keeps_known_fields(a: RenderGraphImageConstraint, b: RenderGraphImageConstraint)
    ensures
        a.samples is Some ==> a.spec_merged(b).samples == a.samples,
        a.format is Some ==> a.spec_merged(b).format == a.format,
        a.extents is Some ==> a.spec_merged(b).extents == a.extents,
        a.layer_count is Some ==> a.spec_merged(b).layer_count == a.layer_count,
        a.mip_count is Some ==> a.spec_merged(b).mip_count == a.mip_count,
{
}

/// A merged constraint has every flag of both constraints.
pub proof fn lemma_constraint_merged_has_flags(s: RenderGraphImageConstraint, o: RenderGraphImageConstraint)
    ensures
        s.spec_merged(o).spec_has_flags_of(s),
        s.spec_merged(o).spec_has_flags_of(o),
{
    lemma_flags_union_includes(s.aspect_flags, o.aspect_flags);
    lemma_flags_union_includes(s.usage_flags, o.usage_flags);
    lemma_flags_union_includes(s.create_flags, o.create_flags);
}

/// Having the flags of another constraint is reflexive and transitive.
pub proof fn lemma_constraint_has_flags_order(a: RenderGraphImageConstraint, b: RenderGraphImageConstraint, c: RenderGraphImageConstraint)
    ensures
        a.spec_has_flags_of(a),
        a.spec_has_flags_of(b) && b.spec_has_flags_of(c) ==> a.spec_has_flags_of(c),
{
    lemma_flags_include_order(a.aspect_flags, b.aspect_flags, c.aspect_flags);
    lemma_flags_include_order(a.usage_flags, b.usage_flags, c.usage_flags);
    lemma_flags_include_order(a.create_flags, b.create_flags, c.create_flags);
}

/// Bit `b` of the flags of a specification, counting the aspect flags (bits 0 to 31), then
/// the usage flags (32 to 63), then the create flags (64 to 95).
pub open spec fn spec_flag_bit(s: RenderGraphImageSpecification, b: u32) -> bool {
    if b < 32 {
        s.aspect_flags & (1u32 << b) != 0
    } else if b < 64 {
        s.usage_flags & (1u32 << ((b - 32) as u32)) != 0
    } else {
        s.create_flags & (1u32 << ((b - 64) as u32)) != 0
    }
}

proof fn lemma_or_bit(a: u32, c: u32, b: u32)
    requires
        b < 32,
    ensures
        (a | c) & (1u32 << b) != 0 ==> a & (1u32 << b) != 0 || c & (1u32 << b) != 0,
{
    assert((a | c) & (1u32 << b) != 0 ==> a & (1u32 << b) != 0 || c & (1u32 << b) != 0) by (bit_vector)
        requires
            b < 32,
    ;
}

/// A flag bit of a merged specification is a flag bit of one of the two specifications merged.
pub proof fn lemma_merged_flag_bit(s: RenderGraphImageSpecification, o: RenderGraphImageSpecification, b: u32)
    requires
        b < 96,
    ensures
        spec_flag_bit(s.spec_merged(o), b) ==> spec_flag_bit(s, b) || spec_flag_bit(o, b),
{
    if b < 32 {
        lemma_or_bit(s.aspect_flags, o.aspect_flags, b);
    } else if b < 64 {
        lemma_or_bit(s.usage_flags, o.usage_flags, (b - 32) as u32);
    } else {
        lemma_or_bit(s.create_flags, o.create_flags, (b - 64) as u32);
    }
}

proof fn lemma_include_bit(a: u32, c: u32, b: u32)
    requires
        b < 32,
    ensures
        a & c == c && c & (1u32 << b) != 0 ==> a & (1u32 << b) != 0,
{
    assert(a & c == c && c & (1u32 << b) != 0 ==> a & (1u32 << b) != 0) by (bit_vector)
        requires
            b < 32,
    ;
}

/// A specification with every flag of another has each of that one's flag bits.
pub proof fn lemma_has_flags_bit(a: RenderGraphImageSpecification, c: RenderGraphImageSpecification, b: u32)
    requires
        b < 96,
    ensures
        a.spec_has_flags_of(c) && spec_flag_bit(c, b) ==> spec_flag_bit(a, b),
{
    if b < 32 {
        lemma_include_bit(a.aspect_flags, c.aspect_flags, b);
    } else if b < 64 {
        lemma_include_bit(a.usage_flags, c.usage_flags, (b - 32) as u32);
    } else {
        lemma_include_bit(a.create_flags, c.create_flags, (b - 64) as u32);
    }
}

} // verus!
