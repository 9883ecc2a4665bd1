use kore_iommu::firm::pcie::{Bdf, BdfRange, BdfRangeSet, BdfRangeSetError};

#[test]
fn bdf_encodes_requester_id() {
    let requester = Bdf::from_bus_device_function(0x2a, 5, 3).unwrap();
    assert_eq!(requester.as_u32(), (0x2a_u32 << 8) | (5_u32 << 3) | 3);
    assert_eq!(requester.bus(), 0x2a);
    assert_eq!(requester.device(), 5);
    assert_eq!(requester.function(), 3);
}

#[test]
fn bdf_range_set_sorts_and_merges_adjacent_ranges() {
    let mut ranges = BdfRangeSet::<4>::empty();
    ranges
        .insert::<BdfRangeSetError>(
            BdfRange::inclusive(Bdf::from_u16(12), Bdf::from_u16(13)).unwrap(),
        )
        .unwrap();
    ranges
        .insert::<BdfRangeSetError>(
            BdfRange::inclusive(Bdf::from_u16(10), Bdf::from_u16(11)).unwrap(),
        )
        .unwrap();
    ranges
        .insert_single::<BdfRangeSetError>(Bdf::from_u16(14))
        .unwrap();
    ranges
        .insert::<BdfRangeSetError>(BdfRange::single(Bdf::from_u16(20)))
        .unwrap();

    assert_eq!(
        ranges.as_slice(),
        &[
            BdfRange::inclusive(Bdf::from_u16(10), Bdf::from_u16(14)).unwrap(),
            BdfRange::single(Bdf::from_u16(20))
        ]
    );
}

#[test]
fn requesters_and_ranges_give_their_distances_and_ends() {
    let base = Bdf::from_u16(0x100);
    assert_eq!(Bdf::from_u16(0x120).offset_from(base), Some(0x20));
    assert_eq!(base.offset_from(Bdf::from_u16(0x120)), None);
    let range = BdfRange::inclusive(base, Bdf::from_u16(u16::MAX)).unwrap();
    assert_eq!(range.end_inclusive(), Some(Bdf::from_u16(u16::MAX)));
}
