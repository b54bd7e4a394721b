use weekly_planner::weekplan::time::{TimeField, TimeParseError};
use weekly_planner::weekplan::{LoadError, SlotParseError};
use weekly_planner::{Error, Slot, Time, WeekPlan, Weekday};

fn at(hour: u8, minute: u8) -> Time {
    Time::new(hour, minute).unwrap()
}

fn sample_plan() -> WeekPlan {
    WeekPlan::new(at(8, 30), 90, 7).unwrap()
}

fn plan_to_json(plan: &WeekPlan) -> String {
    let mut bookings = serde_json::Map::new();
    for (slot, activity) in plan.entries() {
        bookings.insert(slot.to_string(), serde_json::Value::from(activity));
    }
    let start = plan.start();
    let mut start_doc = serde_json::Map::new();
    start_doc.insert("hour".to_string(), serde_json::Value::from(start.hour()));
    start_doc.insert("minute".to_string(), serde_json::Value::from(start.minute()));
    let mut doc = serde_json::Map::new();
    doc.insert("plan".to_string(), serde_json::Value::Object(bookings));
    doc.insert("start".to_string(), serde_json::Value::Object(start_doc));
    doc.insert("slot_duration".to_string(), serde_json::Value::from(plan.slot_duration()));
    doc.insert("slots".to_string(), serde_json::Value::from(plan.slots()));
    serde_json::to_string(&serde_json::Value::Object(doc)).unwrap()
}

fn plan_from_json(text: &str) -> Result<WeekPlan, LoadError> {
    let doc: serde_json::Value = serde_json::from_str(text).unwrap();
    let start = &doc["start"];
    let start = Time::new(
        start["hour"].as_u64().unwrap() as u8,
        start["minute"].as_u64().unwrap() as u8,
    )
    .unwrap();
    let mut entries = Vec::new();
    for (key, value) in doc["plan"].as_object().unwrap() {
        let slot = Slot::from_str(key).unwrap();
        entries.push((slot, value.as_str().unwrap().to_string()));
    }
    WeekPlan::from_entries(
        start,
        doc["slot_duration"].as_u64().unwrap() as u16,
        doc["slots"].as_u64().unwrap() as u8,
        entries,
    )
}

#[test]
fn test_valid_slot() {
    let planner = WeekPlan::new(Time::new(8, 30).unwrap(), 90, 7).unwrap();
    assert!(planner.is_valid_slot(Time::new(14, 30).unwrap()));
    assert!(!planner.is_valid_slot(Time::new(14, 00).unwrap()));
}

#[test]
fn weekday() {
    let day_in = Weekday::Monday;
    let json_out = serde_json::to_string(day_in.name()).unwrap();

    let json_in = r#""Monday""#;
    let name: String = serde_json::from_str(json_in).unwrap();
    let day_out = Weekday::from_str(&name).unwrap();

    assert_eq!(day_in, day_out);
    assert_eq!(json_in, json_out);
}

#[test]
fn time() {
    let time_in = Time::new(8, 30).unwrap();
    let mut doc = serde_json::Map::new();
    doc.insert("hour".to_string(), serde_json::Value::from(time_in.hour()));
    doc.insert("minute".to_string(), serde_json::Value::from(time_in.minute()));
    let json_out = serde_json::to_string(&serde_json::Value::Object(doc)).unwrap();

    let json_in = r#"{"hour":8,"minute":30}"#;
    let parsed: serde_json::Value = serde_json::from_str(r#"{"hour": 8, "minute": 30}"#).unwrap();
    let time_out = Time::new(
        parsed["hour"].as_u64().unwrap() as u8,
        parsed["minute"].as_u64().unwrap() as u8,
    )
    .unwrap();

    assert_eq!(time_in, time_out);
    assert_eq!(json_in, json_out);
}

#[test]
fn weekplan_round_trip() {
    let mut week_plan_in = WeekPlan::new(Time::new(8, 30).unwrap(), 90, 7).unwrap();
    week_plan_in
        .try_insert(Weekday::Monday, Time::new(8, 30).unwrap(), "AAA".into())
        .unwrap();
    week_plan_in
        .try_insert(Weekday::Tuesday, Time::new(10, 00).unwrap(), "BBB".into())
        .unwrap();

    let week_plan_in = week_plan_in;
    let json = plan_to_json(&week_plan_in);
    let week_plan_out: WeekPlan = plan_from_json(&json).unwrap();

    assert_eq!(week_plan_in, week_plan_out);
}

#[test]
fn round_trip_keeps_table() {
    let mut plan = sample_plan();
    plan.try_insert_range(Weekday::Friday, (at(8, 30), 2), "Operating systems".to_string())
        .unwrap();
    plan.try_insert(Weekday::Sunday, at(17, 30), "Simulation".to_string())
        .unwrap();
    let json = plan_to_json(&plan);
    let back = plan_from_json(&json).unwrap();
    assert_eq!(plan.to_table(), back.to_table());
    assert_eq!(plan.to_html(), back.to_html());
}

#[test]
fn time_new_accepts_valid_and_rejects_others() {
    assert_eq!(at(0, 0).to_minutes(), 0);
    assert_eq!(at(23, 59).to_minutes(), 23 * 60 + 59);
    assert_eq!(at(8, 30).to_minutes(), 510);
    assert!(Time::new(24, 0).is_none());
    assert!(Time::new(0, 60).is_none());
    assert!(Time::new(255, 255).is_none());
    assert_eq!(at(7, 45).hour(), 7);
    assert_eq!(at(7, 45).minute(), 45);
}

#[test]
fn try_sum_carries_minutes_into_hours() {
    let t = at(8, 30).try_sum(90).unwrap();
    assert_eq!((t.hour(), t.minute()), (10, 0));
    assert_eq!(t.to_minutes(), 510 + 90);
    let t = at(8, 30).try_sum(0).unwrap();
    assert_eq!(t, at(8, 30));
    let t = at(0, 59).try_sum(1).unwrap();
    assert_eq!((t.hour(), t.minute()), (1, 0));
    let t = at(23, 0).try_sum(59).unwrap();
    assert_eq!((t.hour(), t.minute()), (23, 59));
}

#[test]
fn try_sum_never_wraps_past_midnight() {
    assert!(at(23, 0).try_sum(60).is_none());
    assert!(at(23, 59).try_sum(1).is_none());
    assert!(at(0, 0).try_sum(u16::MAX).is_none());
    assert!(at(20, 0).try_sum(270).is_none());
}

#[test]
fn times_order_by_hour_then_minute() {
    assert!(at(8, 59) < at(9, 0));
    assert!(at(9, 10) > at(9, 5));
    assert!(at(9, 5) <= at(9, 5));
    assert_eq!(
        at(12, 0).partial_cmp(&at(12, 0)),
        Some(std::cmp::Ordering::Equal)
    );
}

#[test]
fn time_text_is_zero_padded() {
    assert_eq!(at(8, 30).to_string(), "08:30");
    assert_eq!(at(0, 5).to_string(), "00:05");
    assert_eq!(at(23, 59).to_string(), "23:59");
}

#[test]
fn time_text_parses() {
    assert_eq!(Time::from_str("08:30"), Ok(at(8, 30)));
    assert_eq!(Time::from_str("8:30"), Ok(at(8, 30)));
    assert_eq!(Time::from_str("23:59"), Ok(at(23, 59)));
    assert_eq!(Time::from_str("0:0"), Ok(at(0, 0)));
}

#[test]
fn time_text_errors_are_distinguished() {
    assert_eq!(Time::from_str("0830"), Err(TimeParseError::WrongTokenCount));
    assert_eq!(Time::from_str("08:30:00"), Err(TimeParseError::WrongTokenCount));
    assert_eq!(Time::from_str(""), Err(TimeParseError::WrongTokenCount));
    assert_eq!(
        Time::from_str("ab:30"),
        Err(TimeParseError::NotNumeric(TimeField::Hour))
    );
    assert_eq!(
        Time::from_str(":30"),
        Err(TimeParseError::NotNumeric(TimeField::Hour))
    );
    assert_eq!(
        Time::from_str("08:3x"),
        Err(TimeParseError::NotNumeric(TimeField::Minute))
    );
    assert_eq!(
        Time::from_str("24:00"),
        Err(TimeParseError::OutOfRange(TimeField::Hour))
    );
    assert_eq!(
        Time::from_str("12:60"),
        Err(TimeParseError::OutOfRange(TimeField::Minute))
    );
    assert_eq!(
        Time::from_str("99999:00"),
        Err(TimeParseError::OutOfRange(TimeField::Hour))
    );
}

#[test]
fn weekday_names() {
    let names = [
        "Monday",
        "Tuesday",
        "Wednesday",
        "Thursday",
        "Friday",
        "Saturday",
        "Sunday",
    ];
    for (i, name) in names.iter().enumerate() {
        let day = Weekday::from_str(name).unwrap();
        assert_eq!(day.name(), *name);
        assert_eq!(day.index(), i);
        assert_eq!(Weekday::from_index(i), day);
    }
    assert_eq!(Weekday::from_str("monday"), Err(()));
    assert_eq!(Weekday::from_str("Mon"), Err(()));
    assert_eq!(Weekday::from_str(""), Err(()));
}

#[test]
fn slot_key_text() {
    let slot = Slot(Weekday::Monday, at(8, 30));
    assert_eq!(slot.to_string(), "Monday 08:30");
    assert_eq!(Slot::from_str("Monday 08:30"), Ok(slot));
    assert_eq!(
        Slot::from_str("Tuesday 8:30"),
        Ok(Slot(Weekday::Tuesday, at(8, 30)))
    );
    assert_eq!(Slot::from_str("Monday"), Err(SlotParseError::MissingTime));
    assert_eq!(Slot::from_str(""), Err(SlotParseError::MissingTime));
    assert_eq!(
        Slot::from_str("Someday 08:30"),
        Err(SlotParseError::InvalidWeekday)
    );
    assert_eq!(
        Slot::from_str("Monday 25:00"),
        Err(SlotParseError::InvalidTime(TimeParseError::OutOfRange(
            TimeField::Hour
        )))
    );
}

#[test]
fn construct_scenarios() {
    assert!(WeekPlan::new(at(8, 30), 90, 7).is_some());
    assert!(WeekPlan::new(at(20, 0), 90, 3).is_none());
    assert!(WeekPlan::new(at(8, 30), 0, 7).is_none());
    assert!(WeekPlan::new(at(0, 0), 60, 23).is_some());
    assert!(WeekPlan::new(at(0, 0), 60, 24).is_none());
    assert!(WeekPlan::new(at(0, 0), 1439, 1).is_some());
    assert!(WeekPlan::new(at(0, 0), 1440, 1).is_none());
    assert!(WeekPlan::new(at(0, 0), u16::MAX, u8::MAX).is_none());
    assert!(WeekPlan::new(at(23, 59), 30, 0).is_some());
}

#[test]
fn valid_slots_lie_on_the_grid() {
    let plan = sample_plan();
    for k in 0..7u16 {
        let t = at(8, 30).try_sum(k * 90).unwrap();
        assert!(plan.is_valid_slot(t));
    }
    assert!(!plan.is_valid_slot(at(8, 0)));
    assert!(!plan.is_valid_slot(at(8, 31)));
    assert!(!plan.is_valid_slot(at(19, 0)));
    assert!(!plan.is_valid_slot(at(20, 30)));
    assert!(!plan.is_valid_slot(at(14, 0)));
    assert!(plan.is_valid_slot(at(14, 30)));
}

#[test]
fn insert_then_query() {
    let mut plan = sample_plan();
    assert_eq!(plan.activity_at(Weekday::Monday, at(10, 0)), None);
    assert_eq!(
        plan.try_insert(Weekday::Monday, at(10, 0), "Electronics".to_string()),
        Ok(())
    );
    assert_eq!(
        plan.activity_at(Weekday::Monday, at(10, 0)),
        Some("Electronics".to_string())
    );
    assert_eq!(plan.activity_at(Weekday::Tuesday, at(10, 0)), None);
    assert_eq!(
        plan.try_insert(Weekday::Monday, at(10, 0), "Other".to_string()),
        Err(Error::AlreadyBooked(Slot(Weekday::Monday, at(10, 0))))
    );
    assert_eq!(
        plan.activity_at(Weekday::Monday, at(10, 0)),
        Some("Electronics".to_string())
    );
}

#[test]
fn insert_refuses_off_grid_times() {
    let mut plan = sample_plan();
    assert_eq!(
        plan.try_insert(Weekday::Monday, at(10, 15), "X".to_string()),
        Err(Error::InvalidSlot(at(10, 15)))
    );
    assert_eq!(
        plan.try_insert(Weekday::Monday, at(19, 0), "X".to_string()),
        Err(Error::InvalidSlot(at(19, 0)))
    );
    assert_eq!(
        plan.try_insert(Weekday::Monday, at(7, 0), "X".to_string()),
        Err(Error::InvalidSlot(at(7, 0)))
    );
    assert!(plan.entries().is_empty());
}

#[test]
fn insert_range_books_consecutive_slots() {
    let mut plan = sample_plan();
    assert_eq!(
        plan.try_insert_range(Weekday::Monday, (at(10, 0), 2), "X".to_string()),
        Ok(())
    );
    assert_eq!(
        plan.activity_at(Weekday::Monday, at(10, 0)),
        Some("X".to_string())
    );
    assert_eq!(
        plan.activity_at(Weekday::Monday, at(11, 30)),
        Some("X".to_string())
    );
    assert_eq!(plan.activity_at(Weekday::Monday, at(13, 0)), None);
    assert_eq!(plan.entries().len(), 2);
}

#[test]
fn insert_range_keeps_what_it_booked_before_a_conflict() {
    let mut plan = sample_plan();
    plan.try_insert(Weekday::Wednesday, at(13, 0), "A".to_string())
        .unwrap();
    assert_eq!(
        plan.try_insert_range(Weekday::Wednesday, (at(10, 0), 3), "B".to_string()),
        Err(Error::AlreadyBooked(Slot(Weekday::Wednesday, at(13, 0))))
    );
    assert_eq!(
        plan.activity_at(Weekday::Wednesday, at(10, 0)),
        Some("B".to_string())
    );
    assert_eq!(
        plan.activity_at(Weekday::Wednesday, at(11, 30)),
        Some("B".to_string())
    );
    assert_eq!(
        plan.activity_at(Weekday::Wednesday, at(13, 0)),
        Some("A".to_string())
    );
}

#[test]
fn insert_range_past_the_grid() {
    let mut plan = sample_plan();
    assert_eq!(
        plan.try_insert_range(Weekday::Monday, (at(16, 0), 3), "X".to_string()),
        Err(Error::InvalidSlot(at(19, 0)))
    );
    assert_eq!(plan.entries().len(), 2);
    let mut late = WeekPlan::new(at(20, 0), 60, 3).unwrap();
    assert_eq!(
        late.try_insert_range(Weekday::Monday, (at(22, 0), 3), "Y".to_string()),
        Err(Error::InvalidSlot(at(23, 0)))
    );
    assert_eq!(late.entries().len(), 1);
    assert_eq!(
        late.try_insert_range(Weekday::Monday, (at(20, 15), 1), "Y".to_string()),
        Err(Error::InvalidSlot(at(20, 15)))
    );
    assert_eq!(
        late.try_insert_range(Weekday::Monday, (at(20, 0), 0), "Y".to_string()),
        Ok(())
    );
}

#[test]
fn table_layout() {
    let mut plan = sample_plan();
    plan.try_insert(Weekday::Tuesday, at(11, 30), "T".to_string())
        .unwrap();
    plan.try_insert(Weekday::Sunday, at(17, 30), "S".to_string())
        .unwrap();
    let (days, times, table) = plan.to_table();
    assert_eq!(
        days,
        vec![
            Weekday::Monday,
            Weekday::Tuesday,
            Weekday::Wednesday,
            Weekday::Thursday,
            Weekday::Friday,
            Weekday::Saturday,
            Weekday::Sunday
        ]
    );
    let texts: Vec<String> = times.iter().map(|t| t.to_string()).collect();
    assert_eq!(
        texts,
        vec!["08:30", "10:00", "11:30", "13:00", "14:30", "16:00", "17:30"]
    );
    assert_eq!(table.len(), 49);
    assert_eq!(table[7 + 2], "T");
    assert_eq!(table[6 * 7 + 6], "S");
    assert_eq!(table.iter().filter(|a| a.is_empty()).count(), 47);
}

#[test]
fn html_has_one_row_per_slot() {
    let mut plan = WeekPlan::new(at(9, 0), 60, 2).unwrap();
    plan.try_insert(Weekday::Monday, at(10, 0), "Maths".to_string())
        .unwrap();
    let html = plan.to_html();
    assert!(html.starts_with("<!DOCTYPE html>"));
    assert!(html.ends_with("</html>"));
    assert!(html.contains("            <th>Monday</th>\n"));
    assert!(html.contains("            <th>Sunday</th>\n"));
    assert!(html.contains("            <th>09:00</th>\n"));
    assert!(html.contains("            <th>10:00</th>\n"));
    assert!(html.contains("            <td>Maths</td>\n"));
    assert_eq!(html.matches("<td>").count(), 14);
    assert_eq!(html.matches("            <td></td>\n").count(), 13);
    let second_row = html.find("<th>10:00</th>").unwrap();
    let maths = html.find("<td>Maths</td>").unwrap();
    assert!(maths > second_row);
}

#[test]
fn entries_come_by_day_then_time() {
    let mut plan = sample_plan();
    plan.try_insert(Weekday::Friday, at(8, 30), "F".to_string())
        .unwrap();
    plan.try_insert(Weekday::Monday, at(16, 0), "M2".to_string())
        .unwrap();
    plan.try_insert(Weekday::Monday, at(10, 0), "M1".to_string())
        .unwrap();
    let entries = plan.entries();
    assert_eq!(
        entries,
        vec![
            (Slot(Weekday::Monday, at(10, 0)), "M1".to_string()),
            (Slot(Weekday::Monday, at(16, 0)), "M2".to_string()),
            (Slot(Weekday::Friday, at(8, 30)), "F".to_string()),
        ]
    );
}

#[test]
fn load_checks_grid_and_every_booking() {
    assert_eq!(
        WeekPlan::from_entries(at(20, 0), 90, 3, Vec::new()),
        Err(LoadError::InvalidGrid)
    );
    let bad = vec![
        (Slot(Weekday::Monday, at(8, 30)), "A".to_string()),
        (Slot(Weekday::Monday, at(9, 0)), "B".to_string()),
    ];
    assert_eq!(
        WeekPlan::from_entries(at(8, 30), 90, 7, bad),
        Err(LoadError::Rejected(
            Slot(Weekday::Monday, at(9, 0)),
            Error::InvalidSlot(at(9, 0))
        ))
    );
    let twice = vec![
        (Slot(Weekday::Monday, at(8, 30)), "A".to_string()),
        (Slot(Weekday::Monday, at(8, 30)), "B".to_string()),
    ];
    assert_eq!(
        WeekPlan::from_entries(at(8, 30), 90, 7, twice),
        Err(LoadError::Rejected(
            Slot(Weekday::Monday, at(8, 30)),
            Error::AlreadyBooked(Slot(Weekday::Monday, at(8, 30)))
        ))
    );
    let good = vec![(Slot(Weekday::Sunday, at(10, 0)), "C".to_string())];
    let plan = WeekPlan::from_entries(at(8, 30), 90, 7, good).unwrap();
    assert_eq!(
        plan.activity_at(Weekday::Sunday, at(10, 0)),
        Some("C".to_string())
    );
}
