use vstd::prelude::*;

verus! {

/// The largest raw value of the 12-bit ADC: a saturated reading.
pub const ADC_MAX: u16 = 4095;

/// Half of the ADC range: the largest weight a reading can get.
pub const ADC_HALF: u16 = 2048;

/// The ADC input attenuations the battery sampler steps through, highest first.
#[derive(Clone, Copy, Debug, PartialEq, Eq, Structural)]
pub enum Attenuation {
    Db11,
    Db6,
    Db2p5,
    Db0,
}

/// The attenuation read after `att` when `att` did not saturate.
pub open spec fn lower_attenuation(att: Attenuation) -> Option<Attenuation> {
    match att {
        Attenuation::Db11 => Some(Attenuation::Db6),
        Attenuation::Db6 => Some(Attenuation::Db2p5),
        Attenuation::Db2p5 => Some(Attenuation::Db0),
        Attenuation::Db0 => None,
    }
}

/// Why the autorange readings give no voltage.
#[derive(Clone, Copy, Debug, PartialEq, Eq, Structural)]
pub enum AutorangeError {
    /// Every weight is zero, so no weighted mean exists.
    InvalidWeightSum,
}

/// The weight of a reading taken at 11 dB: the reading, capped at half the range.
pub open spec fn weight_high(raw: int) -> int {
    if raw < ADC_HALF {
        raw
    } else {
        ADC_HALF as int
    }
}

/// The weight of a reading taken at 6 dB or 2.5 dB: largest at mid-range, falling
/// to zero towards both ends.
pub open spec fn weight_mid(raw: int) -> int {
    let diff = if raw < ADC_HALF {
        ADC_HALF - raw
    } else {
        raw - ADC_HALF
    };
    if ADC_HALF - diff > 0 {
        ADC_HALF - diff
    } else {
        0
    }
}

/// The weight of a reading taken at 0 dB: the headroom to saturation, capped at
/// half the range.
pub open spec fn weight_low(raw: int) -> int {
    if ADC_MAX - raw < ADC_HALF {
        ADC_MAX - raw
    } else {
        ADC_HALF as int
    }
}

/// Every weight lies between zero and half the ADC range, and a weight of zero
/// comes only from a reading at the far end of its attenuation's range.
pub proof fn lemma_weights_bounded(raw: int)
    requires
        0 <= raw <= ADC_MAX,
    ensures
        0 <= weight_high(raw) <= ADC_HALF,
        0 <= weight_mid(raw) <= ADC_HALF,
        0 <= weight_low(raw) <= ADC_HALF,
        weight_high(raw) == 0 <==> raw == 0,
        weight_mid(raw) == 0 <==> raw == 0,
        weight_low(raw) == 0 <==> raw == ADC_MAX,
{
}

/// The weights in numbers: at 11 dB the reading itself up to 2048 and 2048 above;
/// at 6 dB and 2.5 dB the reading up to 2048, `4096 - raw` above and zero from
/// 4096 on; at 0 dB 2048 up to 2047 and the headroom `4095 - raw` above.
pub proof fn lemma_weight_values(raw: int)
    requires
        0 <= raw,
    ensures
        raw <= 2048 ==> weight_high(raw) == raw,
        raw >= 2048 ==> weight_high(raw) == 2048,
        raw <= 2048 ==> weight_mid(raw) == raw,
        2048 <= raw <= 4096 ==> weight_mid(raw) == 4096 - raw,
        raw >= 4096 ==> weight_mid(raw) == 0,
        raw <= 2047 ==> weight_low(raw) == 2048,
        2047 <= raw <= 4095 ==> weight_low(raw) == 4095 - raw,
{
}

/// Each weight moves with its reading as the sampler needs: the 11 dB weight
/// never falls as the reading grows, the 0 dB weight never grows, and the mid
/// weights are symmetric about half the range.
pub proof fn lemma_weight_shapes(a: int, b: int)
    requires
        0 <= a <= b <= 4095,
    ensures
        weight_high(a) <= weight_high(b),
        weight_low(a) >= weight_low(b),
        b <= 2048 ==> weight_mid(b) == weight_mid(4096 - b),
{
}

/// The readings of one autorange sample: the ADC is read at 11 dB, then at each
/// lower attenuation as long as the previous reading did not saturate; a reading
/// that was not taken counts as saturated.
pub struct Autorange {
    raw11: u16,
    raw6: u16,
    raw2: u16,
    raw0: u16,
    pending: Option<Attenuation>,
}

impl Autorange {
    /// The reading stored for `att`.
    pub closed spec fn reading(&self, att: Attenuation) -> u16 {
        match att {
            Attenuation::Db11 => self.raw11,
            Attenuation::Db6 => self.raw6,
            Attenuation::Db2p5 => self.raw2,
            Attenuation::Db0 => self.raw0,
        }
    }

    /// The attenuation to read next, if any.
    pub closed spec fn pending(&self) -> Option<Attenuation> {
        self.pending
    }

    /// A sample with no reading taken: every reading counts as saturated, and the
    /// 11 dB reading comes first.
    pub fn new() -> (a: Self)
        ensures
            a.pending() == Some(Attenuation::Db11),
            forall|att: Attenuation| #[trigger] a.reading(att) == ADC_MAX,
    {
        Autorange { raw11: ADC_MAX, raw6: ADC_MAX, raw2: ADC_MAX, raw0: ADC_MAX, pending: Some(Attenuation::Db11) }
    }

    /// The reading stored for `att`.
    pub fn raw_reading(&self, att: Attenuation) -> (raw: u16)
        ensures
            raw == self.reading(att),
    {
        match att {
            Attenuation::Db11 => self.raw11,
            Attenuation::Db6 => self.raw6,
            Attenuation::Db2p5 => self.raw2,
            Attenuation::Db0 => self.raw0,
        }
    }

    /// The attenuation to read next, or `None` when the sample is complete.
    pub fn next_reading(&self) -> (att: Option<Attenuation>)
        ensures
            att == self.pending(),
    {
        self.pending
    }

    /// Records the reading of the pending attenuation and decides what to read
    /// next: the next lower attenuation if this reading did not saturate, else
    /// nothing more.
    pub fn record(&mut self, raw: u16)
        requires
            old(self).pending() is Some,
        ensures
            final(self).reading(old(self).pending().unwrap()) == raw,
            forall|att: Attenuation|
                att != old(self).pending().unwrap() ==> #[trigger] final(self).reading(att) == old(
                    self,
                ).reading(att),
            final(self).pending() == if raw < ADC_MAX {
                lower_attenuation(old(self).pending().unwrap())
            } else {
                None
            },
    {
        let att = self.pending.unwrap();
        match att {
            Attenuation::Db11 => {
                self.raw11 = raw;
            },
            Attenuation::Db6 => {
                self.raw6 = raw;
            },
            Attenuation::Db2p5 => {
                self.raw2 = raw;
            },
            Attenuation::Db0 => {
                self.raw0 = raw;
            },
        }
        self.pending = if raw < ADC_MAX {
            match att {
                Attenuation::Db11 => Some(Attenuation::Db6),
                Attenuation::Db6 => Some(Attenuation::Db2p5),
                Attenuation::Db2p5 => Some(Attenuation::Db0),
                Attenuation::Db0 => None,
            }
        } else {
            None
        };
    }

    /// The weights of the four readings for the weighted mean of their voltages,
    /// in the order 11 dB, 6 dB, 2.5 dB, 0 dB; an error when they are all zero.
    pub fn weights(&self) -> (w: Result<[u32; 4], AutorangeError>)
        requires
            self.reading(Attenuation::Db0) <= ADC_MAX,
        ensures
            ({
                let c11 = weight_high(self.reading(Attenuation::Db11) as int);
                let c6 = weight_mid(self.reading(Attenuation::Db6) as int);
                let c2 = weight_mid(self.reading(Attenuation::Db2p5) as int);
                let c0 = weight_low(self.reading(Attenuation::Db0) as int);
                match w {
                    Ok(ws) => c11 + c6 + c2 + c0 != 0 && ws@ == seq![c11 as u32, c6 as u32, c2 as u32, c0 as u32],
                    Err(e) => c11 + c6 + c2 + c0 == 0 && e == AutorangeError::InvalidWeightSum,
                }
            }),
    {
        let adc_half: u16 = ADC_HALF;
        let c11: u32 = if self.raw11 < adc_half {
            self.raw11 as u32
        } else {
            adc_half as u32
        };
        let d6: u16 = if self.raw6 < adc_half {
            adc_half - self.raw6
        } else {
            self.raw6 - adc_half
        };
        let c6_signed: i32 = (adc_half as i32) - (d6 as i32);
        let c6: u32 = if c6_signed > 0 {
            c6_signed as u32
        } else {
            0
        };
        let d2: u16 = if self.raw2 < adc_half {
            adc_half - self.raw2
        } else {
            self.raw2 - adc_half
        };
        let c2_signed: i32 = (adc_half as i32) - (d2 as i32);
        let c2: u32 = if c2_signed > 0 {
            c2_signed as u32
        } else {
            0
        };
        let headroom: u16 = ADC_MAX - self.raw0;
        let c0: u32 = if headroom < adc_half {
            headroom as u32
        } else {
            adc_half as u32
        };
        let sum: u32 = c11 + c6 + c2 + c0;
        if sum == 0 {
            return Err(AutorangeError::InvalidWeightSum);
        }
        let ws = [c11, c6, c2, c0];
        assert(ws@ =~= seq![c11, c6, c2, c0]);
        Ok(ws)
    }
}

} // verus!
