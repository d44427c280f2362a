use rafx_framework::image_spec::{
    Extent2D, RenderGraphImageConstraint, RenderGraphImageExtents, RenderGraphImageSpecification,
};

fn spec() -> RenderGraphImageSpecification {
    RenderGraphImageSpecification {
        samples: 4,
        format: 37,
        aspect_flags: 1,
        usage_flags: 0x10,
        create_flags: 0,
        extents: RenderGraphImageExtents::Custom(256, 128, 1),
        layer_count: 1,
        mip_count: 3,
    }
}

#[test]
fn specifications_merge_their_flags_when_compatible() {
    let mut a = spec();
    let mut b = spec();
    b.usage_flags = 0x4;
    b.aspect_flags = 2;
    assert!(a.can_merge(&b));
    assert!(a.try_merge(&b));
    assert_eq!(a.usage_flags, 0x14);
    assert_eq!(a.aspect_flags, 3);
    let mut c = spec();
    c.samples = 1;
    let before = a;
    assert!(!a.try_merge(&c));
    assert_eq!(a, before);
}

#[test]
fn a_specification_survives_the_round_trip_through_a_constraint() {
    let s = spec();
    let c = RenderGraphImageConstraint::from_specification(&s);
    assert_eq!(c.try_convert_to_specification(), Some(s));
}

#[test]
fn unknown_fields_get_defaults_but_the_format_must_be_known() {
    let mut c = RenderGraphImageConstraint::empty();
    assert_eq!(c.try_convert_to_specification(), None);
    c.format = Some(50);
    let s = c.try_convert_to_specification().unwrap();
    assert_eq!(s.samples, 1);
    assert_eq!(s.extents, RenderGraphImageExtents::MatchSurface);
    assert_eq!(s.layer_count, 1);
    assert_eq!(s.mip_count, 1);
}

#[test]
fn merging_constraints_keeps_what_is_known() {
    let mut a = RenderGraphImageConstraint::empty();
    a.format = Some(37);
    let mut b = RenderGraphImageConstraint::empty();
    b.format = Some(44);
    b.samples = Some(4);
    // The format contradicts: partial merge still takes the samples and keeps the format.
    let mut p = a;
    assert!(!p.partial_merge(&b));
    assert_eq!(p.format, Some(37));
    assert_eq!(p.samples, Some(4));
    // A full merge refuses and changes nothing.
    let mut t = a;
    assert!(!t.try_merge(&b));
    assert_eq!(t, a);
    let mut s = a;
    s.set(&spec());
    assert_eq!(s, RenderGraphImageConstraint::from_specification(&spec()));
}

#[test]
fn extents_follow_the_surface_unless_given() {
    let surface = Extent2D { width: 800, height: 600 };
    assert_eq!(RenderGraphImageExtents::MatchSurface.into_extent_2d(surface), surface);
    assert_eq!(RenderGraphImageExtents::Custom(10, 20, 1).into_extent_2d(surface), Extent2D { width: 10, height: 20 });
}
