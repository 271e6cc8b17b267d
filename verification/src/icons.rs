use vstd::prelude::*;

use crate::image::ImageIterator;

verus! {

/// The icons the generator builds from the bitmap resources.
#[derive(Clone, Copy, Debug, PartialEq, Eq, Structural)]
pub enum Icon {
    BatteryFull,
    BatteryThreeQuarter,
    BatteryHalf,
    BatteryQuarter,
    BluetoothConnected,
    BluetoothDisconnected,
}

/// A fresh iterator: at the start of its image, in a reachable state.
pub open spec fn is_fresh(iter: ImageIterator) -> bool {
    iter.wf() && iter.position() == 0
}

/// The image of each icon, each as a fresh iterator over its bytes.
pub struct IconImages<'a> {
    battery_full: ImageIterator<'a>,
    battery_three_quarter: ImageIterator<'a>,
    battery_half: ImageIterator<'a>,
    battery_quarter: ImageIterator<'a>,
    bluetooth_connected: ImageIterator<'a>,
    bluetooth_disconnected: ImageIterator<'a>,
}

impl<'a> IconImages<'a> {
    /// The image that belongs to `icon`.
    pub closed spec fn image_of(&self, icon: Icon) -> ImageIterator<'a> {
        match icon {
            Icon::BatteryFull => self.battery_full,
            Icon::BatteryThreeQuarter => self.battery_three_quarter,
            Icon::BatteryHalf => self.battery_half,
            Icon::BatteryQuarter => self.battery_quarter,
            Icon::BluetoothConnected => self.bluetooth_connected,
            Icon::BluetoothDisconnected => self.bluetooth_disconnected,
        }
    }

    /// The table that gives each icon its own image; every image is a fresh
    /// iterator, as `Image::to_iterator` returns it.
    pub fn new(
        battery_full: ImageIterator<'a>,
        battery_three_quarter: ImageIterator<'a>,
        battery_half: ImageIterator<'a>,
        battery_quarter: ImageIterator<'a>,
        bluetooth_connected: ImageIterator<'a>,
        bluetooth_disconnected: ImageIterator<'a>,
    ) -> (images: Self)
        requires
            is_fresh(battery_full),
            is_fresh(battery_three_quarter),
            is_fresh(battery_half),
            is_fresh(battery_quarter),
            is_fresh(bluetooth_connected),
            is_fresh(bluetooth_disconnected),
        ensures
            images.image_of(Icon::BatteryFull) == battery_full,
            images.image_of(Icon::BatteryThreeQuarter) == battery_three_quarter,
            images.image_of(Icon::BatteryHalf) == battery_half,
            images.image_of(Icon::BatteryQuarter) == battery_quarter,
            images.image_of(Icon::BluetoothConnected) == bluetooth_connected,
            images.image_of(Icon::BluetoothDisconnected) == bluetooth_disconnected,
            images.wf(),
    {
        IconImages {
            battery_full,
            battery_three_quarter,
            battery_half,
            battery_quarter,
            bluetooth_connected,
            bluetooth_disconnected,
        }
    }

    /// Every image of the table is fresh.
    pub closed spec fn wf(&self) -> bool {
        &&& is_fresh(self.battery_full)
        &&& is_fresh(self.battery_three_quarter)
        &&& is_fresh(self.battery_half)
        &&& is_fresh(self.battery_quarter)
        &&& is_fresh(self.bluetooth_connected)
        &&& is_fresh(self.bluetooth_disconnected)
    }
}

impl Icon {
    /// A fresh iterator over the image of this icon: the icon's own entry of the
    /// table, at index 0.
    pub fn get_image<'a>(&self, images: &IconImages<'a>) -> (iter: ImageIterator<'a>)
        requires
            images.wf(),
        ensures
            iter == images.image_of(*self),
            iter.wf(),
            iter.position() == 0,
    {
        match self {
            Icon::BatteryFull => images.battery_full,
            Icon::BatteryThreeQuarter => images.battery_three_quarter,
            Icon::BatteryHalf => images.battery_half,
            Icon::BatteryQuarter => images.battery_quarter,
            Icon::BluetoothConnected => images.bluetooth_connected,
            Icon::BluetoothDisconnected => images.bluetooth_disconnected,
        }
    }

    /// The battery icon shown in display mode `mode`: full, three quarters, half,
    /// then a quarter for every later mode.
    pub fn for_battery_mode(mode: u8) -> (icon: Icon)
        ensures
            icon == if mode == 0 {
                Icon::BatteryFull
            } else if mode == 1 {
                Icon::BatteryThreeQuarter
            } else if mode == 2 {
                Icon::BatteryHalf
            } else {
                Icon::BatteryQuarter
            },
    {
        match mode {
            0 => Icon::BatteryFull,
            1 => Icon::BatteryThreeQuarter,
            2 => Icon::BatteryHalf,
            _ => Icon::BatteryQuarter,
        }
    }
}

/// The display mode after `mode`: one more, back to 0 after 3.
pub fn next_battery_mode(mode: u8) -> (next: u8)
    requires
        mode < 255,
    ensures
        next == if mode + 1 > 3 {
            0
        } else {
            mode + 1
        },
{
    let next = mode + 1;
    if next > 3 {
        0
    } else {
        next
    }
}

} // verus!
