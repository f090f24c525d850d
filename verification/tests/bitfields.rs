use provisioner::bitfields::{bitfields_indicate_availability, select_availability_bitfields};
use provisioner::bits::Bitfield;
use provisioner::primitives::{
    CoreState, OccupiedCore, ParaId, ScheduledCore, SignedAvailabilityBitfield, ValidatorIndex,
    ValidatorSignature,
};

fn occupied() -> CoreState {
    CoreState::Occupied(OccupiedCore {
        next_up_on_available: None,
        time_out_at: 0,
        next_up_on_time_out: None,
        availability: Bitfield::from_bools(&[]),
    })
}

fn scheduled(id: u32) -> CoreState {
    CoreState::Scheduled(ScheduledCore { para_id: ParaId(id) })
}

fn signed(bits: &[bool], validator: u32, mark: u8) -> SignedAvailabilityBitfield {
    SignedAvailabilityBitfield {
        payload: Bitfield::from_bools(bits),
        validator_index: ValidatorIndex(validator),
        signature: ValidatorSignature([mark; 64]),
    }
}

fn marks(selected: &[SignedAvailabilityBitfield]) -> Vec<(u32, u8)> {
    selected.iter().map(|b| (b.validator_index.0, b.signature.0[0])).collect()
}

#[test]
fn bools_round_trip() {
    let bits = [true, false, true, true, false, false, false, true, true];
    assert_eq!(Bitfield::from_bools(&bits).to_bools(), bits.to_vec());
    assert_eq!(Bitfield::from_bools(&[]).to_bools(), Vec::<bool>::new());
}

#[test]
fn clone_has_the_same_bits() {
    let bits = [false, true, true];
    assert_eq!(Bitfield::from_bools(&bits).clone().to_bools(), bits.to_vec());
}

#[test]
fn not_more_than_one_per_validator() {
    let cores = vec![occupied(), occupied()];
    let bitfields = vec![
        signed(&[true, true], 0, 1),
        signed(&[true, true], 1, 2),
        signed(&[true, true], 1, 3),
    ];
    let selected = select_availability_bitfields(&cores, &bitfields);
    assert_eq!(marks(&selected), vec![(0, 1), (1, 2)]);
    assert_eq!(selected[0].payload.to_bools(), vec![true, true]);
}

#[test]
fn each_bit_belongs_to_an_occupied_core() {
    let cores = vec![CoreState::Free, scheduled(3), occupied()];
    let bitfields = vec![
        signed(&[true, false, false], 0, 1),
        signed(&[false, true, false], 1, 2),
        signed(&[false, false, true], 2, 3),
    ];
    assert_eq!(marks(&select_availability_bitfields(&cores, &bitfields)), vec![(2, 3)]);
}

#[test]
fn more_set_bits_win_conflicts() {
    let cores = vec![occupied(), occupied(), occupied()];
    let bitfields = vec![
        signed(&[true, false, false], 1, 1),
        signed(&[true, true, false], 1, 2),
        signed(&[false, false, true], 1, 3),
    ];
    assert_eq!(marks(&select_availability_bitfields(&cores, &bitfields)), vec![(1, 2)]);
}

#[test]
fn first_of_equals_wins() {
    let cores = vec![occupied(), occupied()];
    let bitfields = vec![signed(&[false, true], 4, 1), signed(&[true, false], 4, 2)];
    assert_eq!(marks(&select_availability_bitfields(&cores, &bitfields)), vec![(4, 1)]);
}

#[test]
fn inadmissible_bitfield_does_not_displace_a_smaller_one() {
    let cores = vec![occupied(), CoreState::Free];
    let bitfields = vec![signed(&[true, false], 0, 1), signed(&[true, true], 0, 2)];
    assert_eq!(marks(&select_availability_bitfields(&cores, &bitfields)), vec![(0, 1)]);
}

#[test]
fn bitfields_of_the_wrong_length_are_left_out() {
    let cores = vec![occupied(), occupied()];
    let bitfields = vec![
        signed(&[true], 0, 1),
        signed(&[true, true, true], 1, 2),
        signed(&[], 2, 3),
        signed(&[false, false], 3, 4),
    ];
    assert_eq!(marks(&select_availability_bitfields(&cores, &bitfields)), vec![(3, 4)]);
}

#[test]
fn selection_is_in_order_of_the_validators() {
    let cores = vec![occupied()];
    let bitfields = vec![
        signed(&[true], 300, 1),
        signed(&[false], 2, 2),
        signed(&[true], 17, 3),
        signed(&[true], 2, 4),
    ];
    let selected = select_availability_bitfields(&cores, &bitfields);
    assert_eq!(marks(&selected), vec![(2, 4), (17, 3), (300, 1)]);
}

#[test]
fn selecting_again_changes_nothing() {
    let cores = vec![occupied(), occupied()];
    let bitfields = vec![
        signed(&[true, false], 5, 1),
        signed(&[true, true], 5, 2),
        signed(&[false, false], 1, 3),
    ];
    let once = select_availability_bitfields(&cores, &bitfields);
    let twice = select_availability_bitfields(&cores, &once);
    assert_eq!(marks(&once), vec![(1, 3), (5, 2)]);
    assert_eq!(marks(&twice), marks(&once));
}

#[test]
fn two_thirds_are_enough() {
    let availability = Bitfield::from_bools(&[false, false, false]);
    let two = vec![signed(&[true], 0, 1), signed(&[true], 2, 2)];
    assert!(bitfields_indicate_availability(0, &two, &availability));
    let one = vec![signed(&[true], 0, 1), signed(&[false], 2, 2)];
    assert!(!bitfields_indicate_availability(0, &one, &availability));
}

#[test]
fn five_of_seven_are_enough_and_four_are_not() {
    let five = Bitfield::from_bools(&[true, true, true, true, true, false, false]);
    assert!(bitfields_indicate_availability(0, &[], &five));
    let four = Bitfield::from_bools(&[true, true, true, true, false, false, false]);
    assert!(!bitfields_indicate_availability(0, &[], &four));
}

#[test]
fn what_was_known_counts() {
    let availability = Bitfield::from_bools(&[true, false, false]);
    let bitfields = vec![signed(&[false, true], 1, 1)];
    assert!(bitfields_indicate_availability(1, &bitfields, &availability));
    assert!(!bitfields_indicate_availability(0, &bitfields, &availability));
}

#[test]
fn a_bit_that_is_not_set_takes_nothing_back() {
    let availability = Bitfield::from_bools(&[true, true]);
    let bitfields = vec![signed(&[false], 0, 1), signed(&[false], 1, 2)];
    assert!(bitfields_indicate_availability(0, &bitfields, &availability));
}

#[test]
fn unknown_validator_makes_the_answer_false() {
    let availability = Bitfield::from_bools(&[true, true]);
    assert!(bitfields_indicate_availability(0, &[], &availability));
    let bitfields = vec![signed(&[true], 2, 1)];
    assert!(!bitfields_indicate_availability(0, &bitfields, &availability));
}

#[test]
fn bits_after_an_unknown_validator_need_not_be_present() {
    let availability = Bitfield::from_bools(&[true]);
    let bitfields = vec![signed(&[true, true], 9, 1), signed(&[], 0, 2)];
    assert!(!bitfields_indicate_availability(1, &bitfields, &availability));
}

#[test]
fn nobody_is_enough_of_nobody() {
    assert!(bitfields_indicate_availability(0, &[], &Bitfield::from_bools(&[])));
}

#[test]
fn order_of_bitfields_is_irrelevant() {
    let availability = Bitfield::from_bools(&[false, false, false]);
    let one = vec![signed(&[true], 0, 1), signed(&[true], 1, 2), signed(&[false], 2, 3)];
    let other = vec![signed(&[false], 2, 3), signed(&[true], 1, 2), signed(&[true], 0, 1)];
    assert!(bitfields_indicate_availability(0, &one, &availability));
    assert!(bitfields_indicate_availability(0, &other, &availability));
}

#[test]
fn more_bitfields_keep_availability() {
    let availability = Bitfield::from_bools(&[false, true, true]);
    let mut bitfields = vec![signed(&[false], 1, 1)];
    assert!(bitfields_indicate_availability(0, &bitfields, &availability));
    bitfields.push(signed(&[false], 0, 2));
    assert!(bitfields_indicate_availability(0, &bitfields, &availability));
}
