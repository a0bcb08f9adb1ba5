use rand::{Rng, SeedableRng};
use rand_chacha::ChaCha20Rng;
use rand_seeder::Seeder;
use s739::error::Error;
use s739::plan::{check_header_size, check_payload_size, plan_length, plan_stride, total_bits};
use s739::stepper::Stepper;
use s739::utils::iter::rand_step;

fn direct(key: Option<String>) -> ChaCha20Rng {
    ChaCha20Rng::from_seed(Seeder::from(key).make_seed())
}

#[test]
fn stepper_draws_what_the_seeded_generator_draws() {
    for key in [None, Some("some key".to_string()), Some(String::new())] {
        let mut expected = direct(key.clone());
        let mut stepper = Stepper::new(&key);
        for max_step in [47usize, 2, 383, 100_000, 3] {
            for _ in 0..50 {
                assert_eq!(rand_step(&mut stepper, max_step), expected.random_range(0..max_step));
            }
        }
    }
}

#[test]
fn stepper_stays_below_the_stride() {
    let mut stepper = Stepper::new(&Some("k".to_string()));
    for _ in 0..1000 {
        assert!(rand_step(&mut stepper, 5) < 5);
    }
}

#[test]
fn stepper_draws_nothing_for_a_stride_of_one_or_less() {
    let key = Some("some key".to_string());
    let mut expected = direct(key.clone());
    let mut stepper = Stepper::new(&key);
    for _ in 0..10 {
        assert_eq!(rand_step(&mut stepper, 0), 0);
        assert_eq!(rand_step(&mut stepper, 1), 0);
    }
    assert_eq!(rand_step(&mut stepper, 1000), expected.random_range(0..1000));
}

#[test]
fn stepper_depends_on_the_key() {
    let mut a = Stepper::new(&Some("some key".to_string()));
    let mut b = Stepper::new(&None);
    let first: Vec<usize> = (0..64).map(|_| rand_step(&mut a, 1 << 20)).collect();
    let second: Vec<usize> = (0..64).map(|_| rand_step(&mut b, 1 << 20)).collect();
    assert_ne!(first, second);
}

#[test]
fn stepper_repeats_for_the_same_key() {
    let mut a = Stepper::new(&Some("some key".to_string()));
    let mut b = Stepper::new(&Some("some key".to_string()));
    for _ in 0..64 {
        assert_eq!(rand_step(&mut a, 1 << 20), rand_step(&mut b, 1 << 20));
    }
}

#[test]
fn capacity_counts_the_samples_after_the_header() {
    assert_eq!(total_bits(128 * 128 * 3, 1), 49_120);
    assert_eq!(total_bits(128 * 128 * 3, 8), 392_960);
    assert_eq!(total_bits(33, 3), 3);
    assert_eq!(total_bits(32, 8), 0);
    assert_eq!(total_bits(10, 1), 0);
}

#[test]
fn payload_size_is_checked_against_the_capacity() {
    assert_eq!(check_payload_size(8, 1), Ok(()));
    assert_eq!(check_payload_size(49_120, 6140), Ok(()));
    assert_eq!(check_payload_size(49_120, 6141), Err(Error::TooMuchData));
    assert_eq!(check_payload_size(7, 1), Err(Error::TooMuchData));
    assert_eq!(check_payload_size(0, 1), Err(Error::TooMuchData));
    assert_eq!(check_payload_size(8, 0), Err(Error::InvalidParameters));
}

#[test]
fn header_size_is_checked_against_the_capacity() {
    assert_eq!(check_header_size(8, 1), Ok(()));
    assert_eq!(check_header_size(8, 0), Err(Error::InvalidDataSize));
    assert_eq!(check_header_size(8, 2), Err(Error::InvalidDataSize));
    assert_eq!(check_header_size(49_120, usize::MAX), Err(Error::InvalidDataSize));
}

#[test]
fn stride_is_the_room_divided_by_the_samples_needed() {
    assert_eq!(plan_stride(49_120, 1, 128, None), Ok(47));
    assert_eq!(plan_stride(392_960, 8, 128, None), Ok(383));
    assert_eq!(plan_stride(33, 3, 1, None), Ok(3));
    assert_eq!(plan_stride(49_120, 1, 6140, None), Ok(1));
    assert_eq!(plan_stride(392_960, 8, 49_120, None), Ok(1));
}

#[test]
fn stride_of_zero_is_an_invalid_data_size() {
    assert_eq!(plan_stride(49_120, 1, 6141, None), Err(Error::InvalidDataSize));
    assert_eq!(plan_stride(49_120, 1, 0, None), Err(Error::InvalidDataSize));
    assert_eq!(plan_stride(0, 0, 1, None), Err(Error::InvalidDataSize));
}

#[test]
fn stride_of_the_caller_must_fit() {
    assert_eq!(plan_stride(33, 3, 1, Some(4)), Ok(4));
    assert_eq!(plan_stride(33, 3, 1, Some(5)), Err(Error::TooBigStep));
    assert_eq!(plan_stride(49_120, 1, 128, Some(47)), Ok(47));
    assert_eq!(plan_stride(49_120, 1, 128, Some(48)), Err(Error::TooBigStep));
    assert_eq!(plan_stride(49_120, 1, 128, Some(0)), Ok(0));
    assert_eq!(plan_stride(0, 1, 128, Some(0)), Err(Error::TooBigStep));
    assert_eq!(plan_stride(49_120, 1, 128, Some(usize::MAX)), Err(Error::TooBigStep));
    assert_eq!(plan_stride(usize::MAX, 1, usize::MAX / 4, Some(1)), Err(Error::TooBigStep));
}

#[test]
fn decoder_takes_the_length_from_the_header() {
    assert_eq!(plan_length(49_152, 1, 128, None), Ok((128, 47)));
    assert_eq!(plan_length(49_152, 8, 49_120, None), Ok((49_120, 1)));
}

#[test]
fn decoder_takes_the_length_from_the_capacity_under_a_stride() {
    assert_eq!(plan_length(49_152, 1, 128, Some(100)), Ok((61, 100)));
    assert_eq!(plan_length(49_152, 1, 5, Some(100)), Ok((61, 100)));
    assert_eq!(plan_length(49_152, 1, 128, Some(0)), Err(Error::InvalidParameters));
    assert_eq!(plan_length(49_152, 1, 128, Some(10_000)), Err(Error::TooBigStep));
    assert_eq!(plan_length(49_152, 1, 128, Some(1)), Err(Error::TooBigStep));
    assert_eq!(plan_length(49_152, 8, 128, Some(1)), Ok((6144, 1)));
}
