use autolux::backlight::{plan_ramp, ramp_next, Backlight, RampAction, StartupError, LUX_LIMIT};
use autolux::config::Config;
use autolux::monitor::AmbientMonitor;
use autolux::parse::parse_sys_value;

#[test]
fn default_config_addresses() {
    let c = Config::default();
    assert_eq!(c.dbus_dest, "org.freedesktop.login1");
    assert_eq!(c.dbus_path, "/org/freedesktop/login1/session/auto");
    assert_eq!(c.dbus_session, "org.freedesktop.login1.Session");
    assert_eq!(c.backlight_path, "/sys/class/backlight/intel_backlight/brightness");
    assert_eq!(c.backlight_max_path, "/sys/class/backlight/intel_backlight/max_brightness");
    assert_eq!(c.backlight_dev, "intel_backlight");
    assert_eq!(c.ambient_path, "/sys/bus/iio/devices/iio:device0/in_illuminance_raw");
}

#[test]
fn range_from_reported_max() {
    let bl = match Backlight::new(Config::default(), 1000) {
        Ok(bl) => bl,
        Err(_) => panic!("construction failed"),
    };
    assert_eq!(bl.max, 1000);
    assert_eq!(bl.min, 50);
    assert_eq!(bl.step, 10);
}

#[test]
fn range_smallest_workable_max() {
    let bl = match Backlight::new(Config::default(), 100) {
        Ok(bl) => bl,
        Err(_) => panic!("construction failed"),
    };
    assert_eq!(bl.min, 5);
    assert_eq!(bl.step, 1);
}

#[test]
fn range_rejects_small_max() {
    assert!(matches!(
        Backlight::new(Config::default(), 99),
        Err(StartupError::InvalidMaxBrightness)
    ));
    assert!(matches!(
        Backlight::new(Config::default(), 0),
        Err(StartupError::InvalidMaxBrightness)
    ));
    assert!(matches!(
        Backlight::new(Config::default(), -7),
        Err(StartupError::InvalidMaxBrightness)
    ));
}

#[test]
fn target_for_darkness_and_daylight() {
    let bl = Backlight::new(Config::default(), 1000).ok().unwrap();
    // lux 0 quantizes to 5, scales to 960, inside [50, 1000].
    assert_eq!(bl.from_ambient(0), 960);
    // lux 500 scales far past the maximum and clamps to it.
    assert_eq!(bl.from_ambient(500), 1000);
    assert_eq!(bl.from_ambient(600), 1000);
    // the largest accepted reading still clamps to the maximum.
    assert_eq!(bl.from_ambient(LUX_LIMIT), 1000);
}

#[test]
fn target_quantizes_in_bands_of_five() {
    // max 40000 gives min 2000, so the indoor bands stay inside the range.
    let bl = Backlight::new(Config::default(), 40_000).ok().unwrap();
    // readings within one band of five map to one brightness.
    assert_eq!(bl.from_ambient(100), 20160);
    assert_eq!(bl.from_ambient(104), 20160);
    // a multiple of five starts the next band.
    assert_eq!(bl.from_ambient(105), 21120);
    assert_eq!(bl.from_ambient(150), 29760);
    assert_eq!(bl.from_ambient(200), 39360);
    // a dark reading scales below the minimum and clamps up to it.
    assert_eq!(bl.from_ambient(0), 2000);
    assert_eq!(bl.from_ambient(4), 2000);
}

#[test]
fn target_monotone_and_in_range_samples() {
    let bl = Backlight::new(Config::default(), 1_000_000).ok().unwrap();
    let mut last = bl.min;
    for lux in 0..2000 {
        let t = bl.from_ambient(lux);
        assert!(bl.min <= t && t <= bl.max);
        assert!(t >= last);
        last = t;
    }
}

#[test]
fn ramp_plan_from_fifty_to_target() {
    // max 1000 gives min 50 and step 10; ambient 0 gives target 960.
    let bl = Backlight::new(Config::default(), 1000).ok().unwrap();
    let target = bl.from_ambient(0);
    assert_eq!(target, 960);
    let writes = plan_ramp(50, target, bl.step);
    // distance 910 at step 10: stepping stops once within one step.
    assert_eq!(writes.len(), 90);
    assert_eq!(writes[0], 60);
    assert_eq!(writes[89], 950);
    for k in 0..writes.len() {
        assert_eq!(writes[k], 50 + 10 * (k as i32 + 1));
        assert!(writes[k] < target);
    }
    assert!((target - writes[89]).abs() <= bl.step);
}

#[test]
fn ramp_plan_downward_never_crosses_target() {
    let writes = plan_ramp(100, 50, 10);
    assert_eq!(writes, vec![90, 80, 70, 60]);
    for w in &writes {
        assert!(*w > 50);
    }
}

#[test]
fn ramp_plan_short_distances_do_not_move() {
    assert_eq!(plan_ramp(500, 500, 10).len(), 0);
    assert_eq!(plan_ramp(505, 500, 10).len(), 0);
    assert_eq!(plan_ramp(495, 500, 10).len(), 0);
    assert_eq!(plan_ramp(490, 500, 10).len(), 0);
    assert_eq!(plan_ramp(489, 500, 10), vec![499]);
}

#[test]
fn ramp_step_decisions() {
    assert_eq!(ramp_next(50, 960, 10, false), RampAction::Write(60));
    assert_eq!(ramp_next(100, 50, 10, false), RampAction::Write(90));
    assert_eq!(ramp_next(955, 960, 10, false), RampAction::Converged);
    assert_eq!(ramp_next(960, 960, 10, false), RampAction::Converged);
}

#[test]
fn ramp_cancellation_writes_nothing() {
    // an observed flag stops the ramp before any write, at any distance.
    assert_eq!(ramp_next(50, 960, 10, true), RampAction::Cancelled);
    assert_eq!(ramp_next(955, 960, 10, true), RampAction::Cancelled);
    assert_eq!(ramp_next(100, 50, 10, true), RampAction::Cancelled);
}

#[test]
fn cancellation_mid_ramp_stops_stepping() {
    // drive the ramp as the process does, flipping the flag after the
    // third write: no further write value is ever produced.
    let mut writes: Vec<i32> = Vec::new();
    let mut cur = 50;
    let mut cancelled = false;
    loop {
        match ramp_next(cur, 960, 10, cancelled) {
            RampAction::Write(b) => {
                writes.push(b);
                cur = b;
                if writes.len() == 3 {
                    cancelled = true;
                }
            }
            a => {
                assert_eq!(a, RampAction::Cancelled);
                break;
            }
        }
    }
    assert_eq!(writes, vec![60, 70, 80]);
}

#[test]
fn stepping_agrees_with_the_plan() {
    let plan = plan_ramp(50, 960, 10);
    let mut got: Vec<i32> = Vec::new();
    let mut cur = 50;
    loop {
        match ramp_next(cur, 960, 10, false) {
            RampAction::Write(b) => {
                got.push(b);
                cur = b;
            }
            a => {
                assert_eq!(a, RampAction::Converged);
                break;
            }
        }
    }
    assert_eq!(got, plan);
}

#[test]
fn monitor_quiet_below_threshold_then_one_event() {
    let mut m = AmbientMonitor::new(100);
    // 76 differs by 24%: swallowed, baseline unchanged.
    assert_eq!(m.observe(76), None);
    assert_eq!(m.baseline, 100);
    // 74 differs by 26% from the still-current baseline 100: one event.
    assert_eq!(m.observe(74), Some(74));
    assert_eq!(m.baseline, 74);
}

#[test]
fn monitor_threshold_is_strict() {
    let mut m = AmbientMonitor::new(100);
    // exactly 25% is not significant.
    assert_eq!(m.observe(75), None);
    assert_eq!(m.observe(125), None);
    assert_eq!(m.baseline, 100);
    assert_eq!(m.observe(126), Some(126));
    assert_eq!(m.baseline, 126);
}

#[test]
fn monitor_dark_baseline() {
    let mut m = AmbientMonitor::new(0);
    // with a zero baseline the divisor is held at one.
    assert_eq!(m.observe(0), None);
    assert_eq!(m.observe(1), Some(1));
    assert_eq!(m.baseline, 1);
}

#[test]
fn parse_plain_sysfs_values() {
    assert_eq!(parse_sys_value(b"1000\n"), Some(1000));
    assert_eq!(parse_sys_value(b"0"), Some(0));
    assert_eq!(parse_sys_value(b" 42 \t\n"), Some(42));
    assert_eq!(parse_sys_value(b"00042"), Some(42));
}

#[test]
fn parse_rejects_non_numeric() {
    assert_eq!(parse_sys_value(b""), None);
    assert_eq!(parse_sys_value(b" \n"), None);
    assert_eq!(parse_sys_value(b"12a3"), None);
    assert_eq!(parse_sys_value(b"-5"), None);
    assert_eq!(parse_sys_value(b"4 2"), None);
}

#[test]
fn parse_at_the_integer_limit() {
    assert_eq!(parse_sys_value(b"2147483647\n"), Some(i32::MAX));
    assert_eq!(parse_sys_value(b"2147483648\n"), None);
    assert_eq!(parse_sys_value(b"999999999999999999999"), None);
    assert_eq!(parse_sys_value(b"0000000000000000005"), Some(5));
}
