use aaos::rtc::{
    enable_interrupt, is_updating, realtime, set_nmi, Date, DateTime, Register, Rtc, RtcInterrupt,
    Time,
};

#[test]
fn rtc_bcd() {
    assert_eq!(
        Rtc::from_registers(
            0b01010001, // 5 << 4 | 1
            0b00001001, // 0 << 4 | 9
            0b00110001, // 3 << 4 | 1
            0b00110001, // 3 << 4 | 1
            0b00000011, // 0 << 4 | 3
            0b01110000, // 7 << 4 | 0
            0x0
        ),
        Rtc { second: 51, minute: 9, hour: 31, day: 31, month: 3, year: 70 }
    )
}

#[test]
fn rtc_binary_24_hour_is_kept() {
    let r = Rtc::from_registers(59, 30, 23, 28, 2, 24, 0b110);
    assert_eq!(r, Rtc { second: 59, minute: 30, hour: 23, day: 28, month: 2, year: 24 });
}

#[test]
fn rtc_12_hour_afternoon_is_converted() {
    // BCD 0x81 with the afternoon flag: 1 PM
    let r = Rtc::from_registers(0, 0, 0x81, 1, 1, 0x21, 0);
    assert_eq!(r.hour, 13);
    // binary, 12-hour mode, 11 PM
    let r = Rtc::from_registers(0, 0, 0x8b, 1, 1, 21, 0b100);
    assert_eq!(r.hour, 23);
}

#[test]
fn date_and_time_of_a_reading() {
    let r = Rtc { second: 5, minute: 4, hour: 3, day: 29, month: 2, year: 24 };
    assert_eq!(r.date(), Some(Date { year: 2024, month: 2, day: 29 }));
    assert_eq!(r.time(), Some(Time { hour: 3, minute: 4, second: 5 }));
    let old = Rtc { year: 99, ..r };
    assert_eq!(old.date(), None);
    let r70 = Rtc { year: 70, day: 1, ..r };
    assert_eq!(r70.date().map(|d| d.year), Some(1970));
    let bad_time = Rtc { hour: 24, ..r };
    assert_eq!(bad_time.time(), None);
    assert_eq!(bad_time.datetime(), None);
    assert_eq!(Rtc { month: 13, ..r }.date(), None);
}

#[test]
fn realtime_adds_time_since_last_update() {
    let r = Rtc { second: 59, minute: 59, hour: 23, day: 31, month: 12, year: 23 };
    let dt = realtime(&r, 2001, 1000).expect("valid");
    assert_eq!(
        dt,
        DateTime { year: 2024, month: 1, day: 1, hour: 0, minute: 0, second: 0, nanosecond: 847_593 }
    );
    let soon = realtime(&r, 1002, 1000).expect("valid");
    assert_eq!(soon.nanosecond, 1_999_695);
    assert_eq!(soon.second, 59);
    let same = realtime(&r, 7, 7).expect("valid");
    assert_eq!(same, DateTime { year: 2023, month: 12, day: 31, hour: 23, minute: 59, second: 59, nanosecond: 0 });
    let bad = Rtc { day: 32, ..r };
    assert_eq!(realtime(&bad, 7, 7), None);
}

#[test]
fn cmos_register_bits() {
    assert!(is_updating(0x80));
    assert!(!is_updating(0x7f));
    assert_eq!(set_nmi(0x0b, true), 0x8b);
    assert_eq!(set_nmi(0x8b, false), 0x0b);
    assert_eq!(enable_interrupt(0x02, RtcInterrupt::Update), 0x12);
    assert_eq!(Register::B.index(), 0x0b);
    assert_eq!(Register::Year.index(), 0x09);
}

#[test]
fn init_enables_update_interrupt() {
    assert_eq!(aaos::rtc::init(0x02), 0x12);
    assert_eq!(aaos::rtc::init(0x12), 0x12);
}
