use mybar::audio::{select_volume, volume_percent, Audio, Mailbox, Sink};
use mybar::link::Link;
use mybar::mem::MemInfo;
use mybar::metrics::{
    battery_health, format_date_time, format_mem, get_cpu, get_date_time, get_inet, get_traffic,
    get_volume, memory_health, read_battery, throughput_due, Health, Item, LocalTime,
};

#[test]
fn battery_coloring() {
    assert_eq!(battery_health(25, false), Health::Bad);
    assert_eq!(battery_health(80, false), Health::Good);
    assert_eq!(battery_health(50, false), Health::Neutral);
    assert_eq!(battery_health(5, true), Health::Good);
    assert_eq!(battery_health(50, true), Health::Good);
    assert_eq!(battery_health(30, false), Health::Neutral);
    assert_eq!(battery_health(70, false), Health::Neutral);
}

#[test]
fn memory_coloring() {
    assert_eq!(memory_health(90, 100), Health::Bad);
    assert_eq!(memory_health(50, 100), Health::Neutral);
    assert_eq!(memory_health(80, 100), Health::Neutral);
    assert_eq!(memory_health(0, 0), Health::Neutral);
}

#[test]
fn record_colors() {
    let i = Item { name: "n".to_string(), text: "t".to_string(), health: Health::Good };
    let r = i.to_i3_item();
    assert_eq!((r.name.as_str(), r.full_text.as_str(), r.color.as_str()), ("n", "t", "#00FF00"));
    let i = Item { name: "n".to_string(), text: "t".to_string(), health: Health::Bad };
    assert_eq!(i.to_i3_item().color, "#FF0000");
    let i = Item { name: "n".to_string(), text: "t".to_string(), health: Health::Neutral };
    assert_eq!(i.to_i3_item().color, "#FFFFFF");
}

#[test]
fn battery_entry() {
    let b = read_battery("25\n", "0\n").unwrap();
    assert_eq!(b.name, "Battery");
    assert_eq!(b.text, "bat 25%");
    assert_eq!(b.health, Health::Bad);
    let b = read_battery("60\n", "1\n").unwrap();
    assert_eq!(b.text, "bat 60\u{1f5f2} ");
    assert_eq!(b.health, Health::Good);
    assert!(read_battery("full\n", "1\n").is_none());
}

#[test]
fn memory_record() {
    let r = format_mem(MemInfo { free: 1_000_000, used: 14_500_000, total: 15_500_000 });
    assert_eq!(r.name, "Memory");
    assert_eq!(r.full_text, "mem 14.5/15.5");
    assert_eq!(r.color, "#FF0000");
    let r = format_mem(MemInfo { free: 8_000_000, used: 8_000_000, total: 16_000_000 });
    assert_eq!(r.full_text, "mem 8.0/16.0");
    assert_eq!(r.color, "#FFFFFF");
}

#[test]
fn cpu_record() {
    let r = get_cpu("0.52 0.58 0.59 1/389 12345\n").unwrap();
    assert_eq!(r.name, "CPU Load Average");
    assert_eq!(r.full_text, "cpu 0.58");
    assert_eq!(r.color, "#FFFFFF");
    assert!(get_cpu("nospace").is_none());
}

#[test]
fn date_time_text() {
    assert_eq!(format_date_time(2024, 3, 7, 9, 5), "2024.03.07 09.05");
    assert_eq!(format_date_time(1999, 12, 31, 23, 59), "1999.12.31 23.59");
}

#[test]
fn date_time_entry() {
    let now = LocalTime { year: 2024, month: 3, day: 7, hour: 9, minute: 5 };
    let d = get_date_time(&now);
    assert_eq!(d.name, "DateTime");
    assert_eq!(d.text, "2024.03.07 09.05");
    assert_eq!(d.health, Health::Neutral);
}

#[test]
fn inet_entry() {
    let link = Link::new(vec!["a".to_string()]);
    let up = get_inet(&link, &vec![Some("1\n".to_string())]);
    assert_eq!((up.name.as_str(), up.text.as_str(), up.health), ("INet", "\u{263C}", Health::Good));
    let down = get_inet(&link, &vec![Some("0\n".to_string())]);
    assert_eq!((down.text.as_str(), down.health), ("\u{2694}", Health::Bad));
}

#[test]
fn traffic_entry() {
    let mut link = Link::new(vec!["a".to_string()]);
    let t = get_traffic(&mut link, &vec![Some((0, 0))], 0);
    assert_eq!(t.text, "net \u{2191}0 B / \u{2193}0 B");
    let t = get_traffic(&mut link, &vec![Some((1500, 1_500_000))], 1000);
    assert_eq!(t.name, "Traffic");
    assert_eq!(t.text, "net \u{2191}1.5 KB / \u{2193}1.5 MB");
    assert_eq!(t.health, Health::Neutral);
}

#[test]
fn volume_latest_wins() {
    let mut audio = Audio::new();
    let mut mb = Mailbox::new();
    assert_eq!(audio.get_volume(&mut mb), 0);
    mb.publish(30);
    mb.publish(45);
    mb.publish(10);
    assert_eq!(mb.take(), Some(10));
    assert_eq!(mb.take(), None);
    mb.publish(30);
    mb.publish(45);
    mb.publish(10);
    assert_eq!(audio.get_volume(&mut mb), 10);
    assert_eq!(mb.take(), None);
    assert_eq!(audio.get_volume(&mut mb), 10);
}

#[test]
fn volume_entry() {
    let mut audio = Audio::new();
    let mut mb = Mailbox::new();
    mb.publish(42);
    let v = get_volume(&mut audio, &mut mb);
    assert_eq!((v.name.as_str(), v.text.as_str(), v.health), ("AudioVolume", "aud 42 %", Health::Neutral));
}

fn sink(volume: u8, running: bool, open: bool, mute: bool) -> Sink {
    Sink { volume, running, open, mute }
}

#[test]
fn sink_choice() {
    assert_eq!(select_volume(&vec![]), None);
    let s = vec![sink(10, false, false, false), sink(20, false, true, false), sink(30, true, true, false)];
    assert_eq!(select_volume(&s), Some(30));
    let s = vec![sink(10, false, false, false), sink(20, false, true, false), sink(25, false, true, false)];
    assert_eq!(select_volume(&s), Some(20));
    let s = vec![sink(10, true, true, true)];
    assert_eq!(select_volume(&s), Some(0));
    let s = vec![sink(10, false, false, false), sink(20, true, false, false)];
    assert_eq!(select_volume(&s), Some(10));
}

#[test]
fn percent_of_norm() {
    assert_eq!(volume_percent(65536, 65536), 100);
    assert_eq!(volume_percent(32768, 65536), 50);
    assert_eq!(volume_percent(0, 65536), 0);
    assert_eq!(volume_percent(655, 65536), 1);
    assert_eq!(volume_percent(98304, 65536), 100);
    assert_eq!(volume_percent(196608, 65536), 100);
    assert_eq!(volume_percent(u32::MAX, 65536), 100);
}

#[test]
fn throughput_schedule() {
    assert!(throughput_due(0));
    assert!(!throughput_due(1));
    assert!(!throughput_due(4));
    assert!(throughput_due(5));
    assert!(throughput_due(10));
}
