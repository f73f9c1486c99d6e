use vstd::prelude::*;
use vstd::string::StringExecFns;

verus! {

/// Static addressing for the D-Bus session manager, the backlight device and
/// the sysfs files the controller reads. All values are fixed defaults; there
/// is no dynamic discovery.
pub struct Config {
    pub dbus_dest: String,
    pub dbus_path: String,
    pub dbus_session: String,
    pub backlight_path: String,
    pub backlight_max_path: String,
    pub backlight_dev: String,
    pub ambient_path: String,
}

impl Config {
    /// The default addressing: logind over D-Bus, the Intel backlight device,
    /// and the first IIO illuminance sensor.
    pub fn default() -> (c: Config)
        ensures
            c.dbus_dest@ == "org.freedesktop.login1"@,
            c.dbus_path@ == "/org/freedesktop/login1/session/auto"@,
            c.dbus_session@ == "org.freedesktop.login1.Session"@,
            c.backlight_path@ == "/sys/class/backlight/intel_backlight/brightness"@,
            c.backlight_max_path@ == "/sys/class/backlight/intel_backlight/max_brightness"@,
            c.backlight_dev@ == "intel_backlight"@,
            c.ambient_path@ == "/sys/bus/iio/devices/iio:device0/in_illuminance_raw"@,
    {
        Config {
            dbus_dest: String::from_str("org.freedesktop.login1"),
            dbus_path: String::from_str("/org/freedesktop/login1/session/auto"),
            dbus_session: String::from_str("org.freedesktop.login1.Session"),
            backlight_path: String::from_str("/sys/class/backlight/intel_backlight/brightness"),
            backlight_max_path: String::from_str(
                "/sys/class/backlight/intel_backlight/max_brightness",
            ),
            backlight_dev: String::from_str("intel_backlight"),
            ambient_path: String::from_str("/sys/bus/iio/devices/iio:device0/in_illuminance_raw"),
        }
    }
}

} // verus!
