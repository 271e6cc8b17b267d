use niceview_lib::battery::{Attenuation, Autorange, AutorangeError};

fn run(readings: &[u16]) -> (Autorange, Vec<Attenuation>) {
    let mut sample = Autorange::new();
    let mut order = Vec::new();
    let mut next = readings.iter();
    while let Some(att) = sample.next_reading() {
        order.push(att);
        sample.record(*next.next().unwrap());
    }
    (sample, order)
}

#[test]
fn stops_at_first_saturation() {
    let (_, order) = run(&[4095]);
    assert_eq!(order, vec![Attenuation::Db11]);
    let (_, order) = run(&[1000, 4095]);
    assert_eq!(order, vec![Attenuation::Db11, Attenuation::Db6]);
    let (_, order) = run(&[100, 300, 900, 2000]);
    assert_eq!(
        order,
        vec![Attenuation::Db11, Attenuation::Db6, Attenuation::Db2p5, Attenuation::Db0]
    );
}

#[test]
fn weights_of_a_full_sample() {
    let (sample, _) = run(&[100, 300, 900, 2000]);
    assert_eq!(sample.weights(), Ok([100, 300, 900, 2048]));
    let (sample, _) = run(&[3000, 3000, 3000, 3000]);
    assert_eq!(sample.weights(), Ok([2048, 1096, 1096, 1095]));
}

#[test]
fn saturated_sample_keeps_high_weight() {
    // Readings not taken count as saturated: 4095 is one step from the top.
    let (sample, _) = run(&[4095]);
    assert_eq!(sample.weights(), Ok([2048, 1, 1, 0]));
}

#[test]
fn all_zero_weights_are_an_error() {
    let (sample, _) = run(&[0, 0, 0, 4095]);
    assert_eq!(sample.weights(), Err(AutorangeError::InvalidWeightSum));
}
