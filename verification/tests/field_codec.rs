use consensus_mpt::field::{below_modulus, FieldElement, FieldError, MODULUS_LE};
use consensus_mpt::mpt::hash_storage_slot;

#[test]
fn zero_has_zero_bytes() {
    assert_eq!(FieldElement::zero().to_bytes(), [0u8; 32]);
    assert_eq!(FieldElement::zero().to_digest(), [0u8; 32]);
}

#[test]
fn modulus_bytes_are_the_pallas_base_field_prime() {
    let expected: [u8; 32] = [
        0x01, 0x00, 0x00, 0x00, 0xed, 0x30, 0x2d, 0x99, 0x1b, 0xf9, 0x4c, 0x09, 0xfc, 0x98, 0x46,
        0x22, 0x00, 0x00, 0x00, 0x00, 0x00, 0x00, 0x00, 0x00, 0x00, 0x00, 0x00, 0x00, 0x00, 0x00,
        0x00, 0x40,
    ];
    assert_eq!(MODULUS_LE, expected);
}

#[test]
fn the_modulus_itself_is_refused() {
    assert_eq!(FieldElement::from_bytes(&MODULUS_LE), Err(FieldError::NotCanonical));
    assert!(!below_modulus(&MODULUS_LE));
}

#[test]
fn the_number_before_the_modulus_is_taken() {
    let mut largest = MODULUS_LE;
    largest[0] = 0x00;
    let element = FieldElement::from_bytes(&largest).unwrap();
    assert_eq!(element.to_bytes(), largest);
    assert!(below_modulus(&largest));
}

#[test]
fn a_number_above_the_modulus_is_refused() {
    let mut above = MODULUS_LE;
    above[0] = 0x02;
    assert_eq!(FieldElement::from_bytes(&above), Err(FieldError::NotCanonical));
    let mut high = [0u8; 32];
    high[31] = 0x41;
    assert_eq!(FieldElement::from_bytes(&high), Err(FieldError::NotCanonical));
    assert_eq!(FieldElement::from_bytes(&[0xff; 32]), Err(FieldError::NotCanonical));
}

#[test]
fn a_lower_byte_decides_where_the_higher_bytes_agree() {
    // Equal to the modulus from byte 5 up, smaller at byte 4.
    let mut below = MODULUS_LE;
    below[4] = 0xec;
    below[0] = 0xff;
    assert!(FieldElement::from_bytes(&below).is_ok());
    // Equal to the modulus from byte 5 up, larger at byte 4.
    let mut above = MODULUS_LE;
    above[4] = 0xee;
    above[0] = 0x00;
    assert_eq!(FieldElement::from_bytes(&above), Err(FieldError::NotCanonical));
}

#[test]
fn the_digest_is_the_bytes_in_reverse() {
    let mut bytes = [0u8; 32];
    for (i, byte) in bytes.iter_mut().enumerate() {
        *byte = i as u8 + 1;
    }
    bytes[31] = 0x3f;
    let element = FieldElement::from_bytes(&bytes).unwrap();
    let digest = element.to_digest();
    assert_eq!(digest[0], 0x3f);
    assert_eq!(digest[1], 31);
    assert_eq!(digest[31], 1);
    let mut reversed = bytes;
    reversed.reverse();
    assert_eq!(digest, reversed);
}

#[test]
fn a_slot_is_laid_out_as_two_field_elements() {
    let address = [0x11u8; 20];
    let mut value = [0u8; 32];
    for (i, byte) in value.iter_mut().enumerate() {
        *byte = i as u8 + 1;
    }
    let preimage = hash_storage_slot(&address, &value).unwrap();

    let mut first = [0u8; 32];
    first[..20].copy_from_slice(&[0x11; 20]);
    first[20] = 0x01;
    assert_eq!(preimage.first.to_bytes(), first);

    let second: [u8; 32] = [
        2, 3, 4, 5, 6, 7, 8, 9, 10, 11, 12, 13, 14, 15, 16, 17, 18, 19, 20, 21, 22, 23, 24, 25, 26,
        27, 28, 29, 30, 31, 32, 0,
    ];
    assert_eq!(preimage.second.to_bytes(), second);
}

#[test]
fn the_largest_address_and_value_fit() {
    let preimage = hash_storage_slot(&[0xff; 20], &[0xff; 32]).unwrap();
    let mut first = [0u8; 32];
    first[..21].copy_from_slice(&[0xff; 21]);
    let mut second = [0xffu8; 32];
    second[31] = 0;
    assert_eq!(preimage.first.to_bytes(), first);
    assert_eq!(preimage.second.to_bytes(), second);
}

#[test]
fn slots_that_differ_have_different_preimages() {
    let address = [0x22u8; 20];
    let mut value = [0u8; 32];
    value[31] = 5;
    let base = hash_storage_slot(&address, &value).unwrap();

    let mut other_value = value;
    other_value[0] = 1;
    assert_ne!(hash_storage_slot(&address, &other_value).unwrap(), base);
    other_value = value;
    other_value[31] = 6;
    assert_ne!(hash_storage_slot(&address, &other_value).unwrap(), base);
    let mut other_address = address;
    other_address[19] = 0x23;
    assert_ne!(hash_storage_slot(&other_address, &value).unwrap(), base);
}

#[test]
fn a_refusal_reads_as_a_line_of_text() {
    assert_eq!(
        FieldError::NotCanonical.message(),
        "the bytes do not spell a number below the field's modulus"
    );
}

#[test]
fn bytes_and_element_go_back_and_forth() {
    let mut bytes = [0u8; 32];
    for (i, byte) in bytes.iter_mut().enumerate() {
        *byte = (i as u8).wrapping_mul(37).wrapping_add(11);
    }
    bytes[31] &= 0x3f;
    let element = FieldElement::from_bytes(&bytes).unwrap();
    assert_eq!(element.to_bytes(), bytes);
    assert_eq!(FieldElement::from_bytes(&element.to_bytes()), Ok(element));
}
