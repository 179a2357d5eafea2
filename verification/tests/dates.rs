use monty::args::ArgValues;
use monty::call::{AttrCallResult, CallResult, OsFunctionCall};
use monty::heap::HeapData;
use monty::order::Order;
use monty::types::date::{
    days_between, format_date_strftime, from_ordinal, from_ymd, isoformat, isoweekday,
    max_day_for_month, parse_iso_date, plus_days, to_ordinal, to_ymd, weekday, Date,
};
use monty::types::datetime::{
    build, chrono_strptime_formats, datetimes_equal, elapsed, format_datetime_strftime,
    format_isoformat, moved, order_datetimes, parse_strptime_naive, to_components, utc_micros,
    Civil, DateTime,
};
use monty::types::datetime_methods::timestamp_parts;
use monty::types::datetime_ops::{class_fromisoformat, class_now, class_strptime, extract_now_tz};
use monty::types::str::allocate_string;
use monty::types::timedelta::{
    components, div_microseconds_round_ties_even, format_repr, from_total_microseconds,
    total_microseconds, TimeDelta,
};
use monty::types::timezone::{format_offset_hms, TimeZone};
use monty::value::{EitherStr, Value};
use monty::vm::VM;
use monty::ExcType;

fn machine() -> VM {
    VM::new(1000, 1 << 20, 64)
}

fn civil(year: i32, month: i32, day: i32, hour: i32, minute: i32, second: i32) -> Civil {
    Civil { year, month, day, hour, minute, second, microsecond: 0 }
}

fn aware(c: Civil, offset: i32) -> DateTime {
    build(c, Some(TimeZone::new(offset, None).unwrap())).unwrap()
}

fn string(text: &str, vm: &mut VM) -> Value {
    allocate_string(text.to_owned(), vm).unwrap()
}

fn moment(v: &Value, vm: &VM) -> DateTime {
    match v {
        Value::Ref(id) => match vm.heap.get(*id) {
            HeapData::DateTime(dt) => dt.duplicate(),
            other => panic!("{other:?}"),
        },
        other => panic!("{other:?}"),
    }
}

#[test]
fn dates_have_ordinals() {
    assert_eq!(to_ordinal(from_ymd(1, 1, 1).unwrap()), 1);
    assert_eq!(to_ordinal(from_ymd(2024, 2, 29).unwrap()), 738945);
    assert_eq!(to_ordinal(from_ymd(9999, 12, 31).unwrap()), 3652059);
    for n in [1, 59, 60, 366, 738945, 3652059] {
        assert_eq!(to_ordinal(from_ordinal(n).unwrap()), n);
    }
    assert!(from_ordinal(0).is_err());
    assert!(from_ordinal(3652060).is_err());
}

#[test]
fn dates_that_do_not_exist_are_errors() {
    let e = from_ymd(2023, 2, 29).unwrap_err();
    assert_eq!(e.exc_type, ExcType::ValueError);
    assert!(from_ymd(0, 1, 1).is_err());
    assert!(from_ymd(10000, 1, 1).is_err());
    assert!(from_ymd(2023, 13, 1).is_err());
    assert_eq!(max_day_for_month(1900, 2), 28);
    assert_eq!(max_day_for_month(2000, 2), 29);
}

#[test]
fn days_are_added_and_taken_away() {
    let d = from_ymd(2024, 2, 28).unwrap();
    let later = plus_days(d, 2).unwrap();
    assert_eq!(to_ymd(later), (2024, 3, 1));
    assert_eq!(days_between(later, d), 2);
    assert_eq!(plus_days(later, -2).map(to_ymd), Some((2024, 2, 28)));
    assert!(plus_days(from_ymd(9999, 12, 31).unwrap(), 1).is_none());
}

#[test]
fn dates_are_written_and_read() {
    let d = from_ymd(2024, 3, 5).unwrap();
    assert_eq!(isoformat(d), "2024-03-05");
    assert_eq!(parse_iso_date("2024-03-05").map(to_ymd), Some((2024, 3, 5)));
    assert!(parse_iso_date("2024-3-5").is_none());
    assert_eq!(weekday(d), 1);
    assert_eq!(format_date_strftime(d, "%d/%m/%Y").unwrap(), "05/03/2024");
    assert_eq!(format_date_strftime(d, "%Q").unwrap(), "%Q");
    let e = format_date_strftime(d, "%H").unwrap_err();
    assert_eq!((e.exc_type, e.message.as_str()), (ExcType::ValueError, "Invalid format string"));
}

#[test]
fn durations_are_normalized() {
    let d = from_total_microseconds(-1).unwrap();
    assert_eq!(components(&d), (-1, 86399, 999999));
    assert_eq!(total_microseconds(&d), -1);
    assert_eq!(format_repr(&d), "datetime.timedelta(days=-1, seconds=86399, microseconds=999999)");
    assert_eq!(div_microseconds_round_ties_even(5, 2), 2);
    assert_eq!(div_microseconds_round_ties_even(7, 2), 4);
    assert_eq!(div_microseconds_round_ties_even(-5, 2), -2);
    assert!(from_total_microseconds(i128::MAX).is_err());
}

#[test]
fn moments_are_built_from_fields() {
    let dt = build(civil(2024, 2, 29, 23, 59, 58), None).unwrap();
    assert_eq!(to_components(&dt), Some((2024, 2, 29, 23, 59, 58, 0)));
    assert_eq!(format_isoformat(&dt, 'T'), "2024-02-29T23:59:58");
    let e = build(civil(2024, 2, 29, 24, 0, 0), None).unwrap_err();
    assert_eq!(e.exc_type, ExcType::ValueError);
    assert_eq!(e.message, "hour must be in 0..23, not 24");
}

#[test]
fn offsets_do_not_change_the_instant() {
    let a = aware(civil(2024, 1, 1, 12, 0, 0), 3600);
    let b = aware(civil(2024, 1, 1, 11, 0, 0), 0);
    assert!(datetimes_equal(&a, &b));
    assert_eq!(order_datetimes(&a, &b), Some(Order::Equal));
    assert_eq!(utc_micros(&a), utc_micros(&b));
    assert_eq!(utc_micros(&b), Some(1704106800000000));
    let naive = build(civil(2024, 1, 1, 11, 0, 0), None).unwrap();
    assert!(!datetimes_equal(&naive, &b));
    assert_eq!(order_datetimes(&naive, &b), None);
    assert_eq!(format_isoformat(&a, ' '), "2024-01-01 12:00:00+01:00");
    assert_eq!(format_offset_hms(-5400), "-01:30");
}

#[test]
fn moving_there_and_back_gives_the_moment_again() {
    let a = aware(civil(2024, 2, 28, 23, 0, 0), -7200);
    let step = TimeDelta { days: 1, seconds: 7200, microseconds: 5 };
    let there = moved(&a, &step, true).unwrap();
    assert_eq!(to_components(&there), Some((2024, 3, 1, 1, 0, 0, 5)));
    let back = moved(&there, &step, false).unwrap();
    assert!(datetimes_equal(&a, &back));
    let gap = elapsed(&there, &a).unwrap();
    assert_eq!(components(&gap), (1, 7200, 5));
    let last = build(civil(9999, 12, 31, 23, 0, 0), None).unwrap();
    assert!(moved(&last, &step, true).is_none());
}

#[test]
fn moments_are_formatted_and_parsed() {
    let dt = build(civil(2024, 2, 29, 7, 5, 0), None).unwrap();
    assert_eq!(format_datetime_strftime(&dt, "%Y%m%d %H:%M").unwrap(), "20240229 07:05");
    let n = parse_strptime_naive("2024-02-29 07:05", "%Y-%m-%d %H:%M").unwrap();
    assert_eq!((n.year, n.month, n.day, n.hour, n.minute), (2024, 2, 29, 7, 5));
    assert!(parse_strptime_naive("2024-02-30", "%Y-%m-%d").is_none());
    let n = parse_strptime_naive("2024-02-29", "%Y-%m-%d").unwrap();
    assert_eq!((n.hour, n.minute, n.second), (0, 0, 0));
    assert!(!chrono_strptime_formats("%H.%f").is_empty());
}

#[test]
fn class_methods_read_texts() {
    let mut vm = machine();
    let text = string("2024-02-29T07:05:06.000123+01:00", &mut vm);
    let v = class_fromisoformat(ArgValues::positional(vec![text]), &mut vm).unwrap();
    let dt = moment(&v, &vm);
    assert_eq!(to_components(&dt), Some((2024, 2, 29, 7, 5, 6, 123)));
    assert_eq!(dt.offset_seconds, Some(3600));
    let bad = string("yesterday", &mut vm);
    let e = class_fromisoformat(ArgValues::positional(vec![bad]), &mut vm).unwrap_err();
    assert_eq!(e.message, "Invalid isoformat string: 'yesterday'");
    let text = string("05/03/2024", &mut vm);
    let format = string("%d/%m/%Y", &mut vm);
    let v = class_strptime(ArgValues::positional(vec![text, format]), &mut vm).unwrap();
    assert_eq!(to_components(&moment(&v, &vm)), Some((2024, 3, 5, 0, 0, 0, 0)));
}

#[test]
fn the_current_time_comes_from_the_host() {
    let mut vm = machine();
    match class_now(ArgValues::empty(), &mut vm).unwrap() {
        AttrCallResult::OsCall(OsFunctionCall::Now { offset_seconds, .. }) => {
            assert_eq!(offset_seconds, None)
        }
        other => panic!("{other:?}"),
    }
    let e = class_now(ArgValues::positional(vec![Value::Int(1)]), &mut vm).unwrap_err();
    assert_eq!(e.exc_type, ExcType::TypeError);
}

#[test]
fn timezones_are_shorter_than_a_day() {
    assert!(TimeZone::new(86399, None).is_ok());
    assert_eq!(TimeZone::new(86400, None).unwrap_err().exc_type, ExcType::ValueError);
    assert_eq!(TimeZone::utc().format_utc_offset(), "+00:00");
    assert_eq!(TimeZone::new(19800, None).unwrap().format_utc_offset(), "+05:30");
}

#[test]
fn dates_have_attributes_and_methods() {
    let mut vm = machine();
    let d = from_ymd(2024, 3, 5).unwrap();
    let v = Value::Ref(vm.allocate(HeapData::Date(d)).unwrap());
    let year = EitherStr::from(vm.interns.intern("year"));
    match v.py_getattr(&year, &mut vm).unwrap() {
        Some(CallResult::Value(Value::Int(2024))) => {}
        other => panic!("{other:?}"),
    }
    let iso = EitherStr::from(vm.interns.intern("isoformat"));
    match monty::types::date_ops::py_call_attr(d, &mut vm, &iso, ArgValues::empty()).unwrap() {
        CallResult::Value(v) => assert_eq!(v.text(&vm), Some("2024-03-05")),
        other => panic!("{other:?}"),
    }
    let nothing = EitherStr::from(vm.interns.intern("nothing"));
    let e = v.py_getattr(&nothing, &mut vm).unwrap_err();
    assert_eq!(e.message, "'datetime.date' object has no attribute 'nothing'");
    let _: Date = d;
}

#[test]
fn a_date_is_read_back_from_its_text() {
    let mut vm = machine();
    for (year, month, day) in [(1, 1, 1), (1970, 1, 1), (2024, 2, 29), (9999, 12, 31)] {
        let d = from_ymd(year, month, day).unwrap();
        assert_eq!(parse_iso_date(&isoformat(d)), Some(d));
        let text = string(&isoformat(d), &mut vm);
        let args = ArgValues::positional(vec![text]);
        let v = monty::types::date_ops::class_fromisoformat(args, &mut vm).unwrap();
        match v {
            Value::Ref(id) => assert!(matches!(vm.heap.get(id), HeapData::Date(x) if *x == d)),
            other => panic!("{other:?}"),
        }
    }
    let text = string("2024-02-30", &mut vm);
    let args = ArgValues::positional(vec![text]);
    let e = monty::types::date_ops::class_fromisoformat(args, &mut vm).unwrap_err();
    assert_eq!(e.message, "Invalid isoformat string: '2024-02-30'");
}

#[test]
fn today_comes_from_the_host() {
    let mut vm = machine();
    match monty::types::date_ops::class_today(ArgValues::empty(), &mut vm).unwrap().into_call_result() {
        CallResult::OsCall(OsFunctionCall::Today) => {}
        other => panic!("{other:?}"),
    }
    let args = ArgValues::positional(vec![Value::Int(1)]);
    let e = monty::types::date_ops::class_today(args, &mut vm).unwrap_err();
    assert_eq!(e.exc_type, ExcType::TypeError);
}

#[test]
fn weekdays_count_from_monday() {
    let tuesday = from_ymd(2024, 3, 5).unwrap();
    assert_eq!((weekday(tuesday), isoweekday(tuesday)), (1, 2));
    let sunday = from_ymd(2024, 3, 10).unwrap();
    assert_eq!((weekday(sunday), isoweekday(sunday)), (6, 7));
}

fn leap_moment(text: &str) -> DateTime {
    let naive = parse_strptime_naive(text, "%Y-%m-%d %H:%M:%S").unwrap();
    DateTime { naive, offset_seconds: None, timezone_name: None, tzinfo_ref: None }
}

#[test]
fn a_leap_second_is_left_on_either_side() {
    let leap = leap_moment("2016-12-31 23:59:60");
    assert_eq!((leap.naive.second, leap.naive.nano), (59, 1_000_000_000));
    let half = TimeDelta { days: 0, seconds: 0, microseconds: 500_000 };
    let inside = moved(&leap, &half, true).unwrap();
    assert_eq!((inside.naive.second, inside.naive.nano), (59, 1_500_000_000));
    assert_eq!(moved(&inside, &half, false).unwrap().naive, leap.naive);
    let out = moved(&inside, &half, true).unwrap();
    assert_eq!(to_components(&out), Some((2017, 1, 1, 0, 0, 0, 0)));
    let second = TimeDelta { days: 0, seconds: 1, microseconds: 0 };
    let later = moved(&leap, &second, true).unwrap();
    assert_eq!(to_components(&later), Some((2017, 1, 1, 0, 0, 0, 0)));
    let earlier = moved(&leap, &second, false).unwrap();
    assert_eq!(to_components(&earlier), Some((2016, 12, 31, 23, 59, 59, 0)));
    let before = moved(&leap, &half, false).unwrap();
    assert_eq!(to_components(&before), Some((2016, 12, 31, 23, 59, 59, 500_000)));
}

#[test]
fn a_leap_second_counts_in_differences_within_a_day() {
    let leap = leap_moment("2016-12-31 12:00:60");
    let next = build(civil(2016, 12, 31, 12, 1, 0), None).unwrap();
    assert_eq!(components(&elapsed(&next, &leap).unwrap()), (0, 1, 0));
    assert_eq!(components(&elapsed(&leap, &next).unwrap()), (-1, 86399, 0));
    let start = build(civil(2016, 12, 31, 12, 0, 59), None).unwrap();
    assert_eq!(components(&elapsed(&leap, &start).unwrap()), (0, 1, 0));
    let tomorrow = build(civil(2017, 1, 1, 0, 0, 0), None).unwrap();
    assert_eq!(components(&elapsed(&tomorrow, &leap).unwrap()), (0, 43140, 0));
}

#[test]
fn timestamps_count_from_the_epoch() {
    let dt = aware(civil(1970, 1, 1, 1, 0, 0), 3600);
    assert_eq!(timestamp_parts(&dt), (0, 0));
    let dt = aware(civil(1969, 12, 31, 23, 59, 59), 0);
    assert_eq!(timestamp_parts(&dt), (-1, 0));
}

#[test]
fn moments_are_shown() {
    let dt = build(civil(2024, 2, 29, 7, 5, 0), None).unwrap();
    assert_eq!(monty::types::datetime::repr(&dt), "datetime.datetime(2024, 2, 29, 7, 5)");
    let dt = aware(civil(2024, 2, 29, 7, 5, 6), 0);
    assert_eq!(
        monty::types::datetime::repr(&dt),
        "datetime.datetime(2024, 2, 29, 7, 5, 6, tzinfo=datetime.timezone.utc)"
    );
}

#[test]
fn dates_and_moments_are_subtracted() {
    let mut vm = machine();
    let gap = |v: Option<Value>, vm: &VM| match v {
        Some(Value::Ref(id)) => match vm.heap.get(id) {
            HeapData::TimeDelta(t) => components(t),
            other => panic!("{other:?}"),
        },
        other => panic!("{other:?}"),
    };
    let a = from_ymd(2024, 3, 1).unwrap();
    let b = from_ymd(2024, 2, 28).unwrap();
    let r = monty::types::date_ops::py_sub_date(a, b, &mut vm).unwrap();
    assert_eq!(gap(r, &vm), (2, 0, 0));
    let x = aware(civil(2024, 1, 1, 12, 0, 0), 3600);
    let y = aware(civil(2024, 1, 1, 12, 0, 0), 0);
    let r = monty::types::datetime_ops::py_sub_datetime(&x, &y, &mut vm).unwrap();
    assert_eq!(gap(r, &vm), (-1, 82800, 0));
    let z = build(civil(2024, 1, 1, 12, 0, 0), None).unwrap();
    assert!(monty::types::datetime_ops::py_sub_datetime(&x, &z, &mut vm).unwrap().is_none());
    let day = TimeDelta { days: 1, seconds: 0, microseconds: 0 };
    let r = monty::types::date_ops::py_sub_timedelta(a, &day, &mut vm).unwrap();
    match r {
        Some(Value::Ref(id)) => match vm.heap.get(id) {
            HeapData::Date(d) => assert_eq!(to_ymd(*d), (2024, 2, 29)),
            other => panic!("{other:?}"),
        },
        other => panic!("{other:?}"),
    }
}

#[test]
fn a_moment_is_read_back_from_its_text() {
    let mut vm = machine();
    let mut exact = civil(2024, 2, 29, 7, 5, 6);
    exact.microsecond = 120;
    let moments = [
        build(exact, None).unwrap(),
        aware(exact, 3600),
        aware(civil(1, 1, 1, 0, 0, 0), -86340),
        build(civil(9999, 12, 31, 23, 59, 59), None).unwrap(),
    ];
    for dt in moments {
        for sep in ['T', ' '] {
            let text = string(&format_isoformat(&dt, sep), &mut vm);
            let v = class_fromisoformat(ArgValues::positional(vec![text]), &mut vm).unwrap();
            let back = moment(&v, &vm);
            assert_eq!(back.naive, dt.naive);
            assert_eq!(back.offset_seconds, dt.offset_seconds);
        }
    }
    let odd = aware(exact, 3630);
    assert_eq!(format_isoformat(&odd, 'T'), "2024-02-29T07:05:06.000120+01:00:30");
    let text = string(&format_isoformat(&odd, 'T'), &mut vm);
    assert!(class_fromisoformat(ArgValues::positional(vec![text]), &mut vm).is_err());
}

#[test]
fn durations_are_made_of_their_microseconds() {
    for total in [0, 1, -1, 86_400_000_000, -86_400_000_001, 86_399_999_999_999_999_999] {
        let d = from_total_microseconds(total).unwrap();
        assert_eq!(total_microseconds(&d), total);
        assert_eq!(from_total_microseconds(total_microseconds(&d)).unwrap(), d);
    }
}

#[test]
fn arguments_of_now_are_dropped_unless_returned() {
    let mut vm = machine();
    let zone = vm.allocate(HeapData::TimeZone(TimeZone::new(60, None).unwrap())).unwrap();
    let text = match string("a longer text", &mut vm) {
        Value::Ref(id) => id,
        other => panic!("{other:?}"),
    };
    let args = ArgValues::positional(vec![Value::Ref(zone)]);
    assert_eq!(extract_now_tz(args, &mut vm).unwrap(), Value::Ref(zone));
    assert_eq!(vm.heap.refs(zone), 1);
    let args = ArgValues::positional(vec![Value::Ref(zone), Value::Ref(text)]);
    let e = extract_now_tz(args, &mut vm).unwrap_err();
    assert_eq!(e.message, "now() takes at most 1 argument (2 given)");
    assert_eq!((vm.heap.refs(zone), vm.heap.refs(text)), (0, 0));
    let zone = vm.allocate(HeapData::TimeZone(TimeZone::new(60, None).unwrap())).unwrap();
    let key = EitherStr::from(vm.interns.intern("zone"));
    let args = ArgValues { pos: vec![], kwargs: vec![(key, Value::Ref(zone))] };
    let e = extract_now_tz(args, &mut vm).unwrap_err();
    assert_eq!(e.exc_type, ExcType::TypeError);
    assert_eq!(vm.heap.refs(zone), 0);
    assert_eq!(extract_now_tz(ArgValues::empty(), &mut vm).unwrap(), Value::PyNone);
}
