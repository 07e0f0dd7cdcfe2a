//! The metric producers: each turns one reading into a named, colored
//! status entry.
use vstd::prelude::*;
use vstd::utf8::encode_utf8;
use crate::audio::{Audio, Mailbox};
use crate::i3;
use crate::link::{Link, LinkStats, carrier_read_on, carrier_on, carrier_is_on, pretty, totals,
    rates, elapsed};
use crate::mem::MemInfo;
use crate::parse::{parse_dec, trim, parse_dec_exec, skip_space_exec, back_space_exec};
use crate::text::{dec, dec2, dec_signed, push_decimal, push_decimal2, push_signed};

verus! {

/// The driver samples throughput on every fifth tick, starting with the
/// first (tick zero).
pub const THROUGHPUT_EVERY: u64 = 5;

/// Whether throughput is sampled on tick `tick`.
pub fn throughput_due(tick: u64) -> (r: bool)
    ensures
        r == (tick % THROUGHPUT_EVERY == 0),
{
    tick % THROUGHPUT_EVERY == 0
}

/// How an entry is colored.
#[derive(Clone, Copy, Debug, PartialEq, Eq, Structural)]
pub enum Health {
    Good,
    Bad,
    Neutral,
}

/// A status entry: `name` identifies the metric, `text` is what is shown.
pub struct Item {
    pub name: String,
    pub text: String,
    pub health: Health,
}

/// The color of a health state, as `#RRGGBB`.
pub open spec fn color_of(h: Health) -> Seq<char> {
    match h {
        Health::Good => "#00FF00"@,
        Health::Bad => "#FF0000"@,
        Health::Neutral => "#FFFFFF"@,
    }
}

impl Item {
    /// The protocol record of this entry.
    pub fn to_i3_item(&self) -> (r: i3::Item)
        ensures
            r@ == (i3::ItemView {
                name: self.name@,
                full_text: self.text@,
                color: color_of(self.health),
            }),
    {
        let color = match self.health {
            Health::Good => String::from_str("#00FF00"),
            Health::Bad => String::from_str("#FF0000"),
            Health::Neutral => String::from_str("#FFFFFF"),
        };
        i3::Item { name: self.name.clone(), full_text: self.text.clone(), color }
    }
}

/// Battery: charging is good; below 30% is bad; above 70% is good; in
/// between nothing is asserted.
pub open spec fn battery_health_spec(capacity: u64, charging: bool) -> Health {
    if charging {
        Health::Good
    } else if capacity < 30 {
        Health::Bad
    } else if capacity > 70 {
        Health::Good
    } else {
        Health::Neutral
    }
}

/// Memory: more than four fifths in use is bad; otherwise nothing is
/// asserted.
pub open spec fn memory_health_spec(used: u64, total: u64) -> Health {
    if used * 5 > total * 4 {
        Health::Bad
    } else {
        Health::Neutral
    }
}

pub fn battery_health(capacity: u64, charging: bool) -> (r: Health)
    ensures
        r == battery_health_spec(capacity, charging),
{
    if charging {
        Health::Good
    } else if capacity < 30 {
        Health::Bad
    } else if capacity > 70 {
        Health::Good
    } else {
        Health::Neutral
    }
}

pub fn memory_health(used: u64, total: u64) -> (r: Health)
    ensures
        r == memory_health_spec(used, total),
{
    if used as u128 * 5 > total as u128 * 4 {
        Health::Bad
    } else {
        Health::Neutral
    }
}

/// The battery entry's text.
pub open spec fn battery_text(capacity: u64, charging: bool) -> Seq<char> {
    "bat "@ + dec(capacity as nat) + if charging {
        "\u{1f5f2} "@
    } else {
        "%"@
    }
}

/// The battery entry, from the text of the capacity file and of the
/// charger's online file; `None` when the capacity is not a number.
pub fn read_battery(capacity_text: &str, online_text: &str) -> (r: Option<Item>)
    ensures
        match parse_dec(trim(encode_utf8(capacity_text@))) {
            None => r is None,
            Some(c) => r is Some && r->0.name@ == "Battery"@ && r->0.text@ == battery_text(
                c,
                carrier_on(encode_utf8(online_text@)),
            ) && r->0.health == battery_health_spec(c, carrier_on(encode_utf8(online_text@))),
        },
{
    let b = capacity_text.as_bytes();
    let lo = skip_space_exec(b, 0, b.len());
    let hi = back_space_exec(b, lo, b.len());
    let capacity = match parse_dec_exec(b, lo, hi) {
        Some(c) => c,
        None => {
            return None;
        },
    };
    let charging = carrier_is_on(online_text);
    let mut text = String::from_str("bat ");
    push_decimal(&mut text, capacity);
    if charging {
        text.append("\u{1f5f2} ");
    } else {
        text.append("%");
    }
    proof {
        assert(text@ =~= battery_text(capacity, charging));
    }
    Some(Item { name: String::from_str("Battery"), text, health: battery_health(capacity, charging) })
}

/// The link entry: a sun when any interface has a carrier (good), crossed
/// swords otherwise (bad).
pub fn get_inet(net: &Link, carriers: &Vec<Option<String>>) -> (r: Item)
    ensures
        r.name@ == "INet"@,
        (exists|i: int| 0 <= i < carriers@.len() && carrier_read_on(carriers@[i])) ==> (
        r.text@ == "\u{263C}"@ && r.health == Health::Good),
        !(exists|i: int| 0 <= i < carriers@.len() && carrier_read_on(carriers@[i])) ==> (
        r.text@ == "\u{2694}"@ && r.health == Health::Bad),
{
    if net.is_up(carriers) {
        Item { name: String::from_str("INet"), text: String::from_str("\u{263C}"), health: Health::Good }
    } else {
        Item { name: String::from_str("INet"), text: String::from_str("\u{2694}"), health: Health::Bad }
    }
}

/// The throughput entry's text.
pub open spec fn traffic_text(s: LinkStats) -> Seq<char> {
    "net \u{2191}"@ + pretty(s.upload as int) + " / \u{2193}"@ + pretty(s.download as int)
}

/// The throughput entry; see [`Link::stats`] for the rates.
pub fn get_traffic(net: &mut Link, readings: &Vec<Option<(i64, i64)>>, now_ms: u64) -> (r: Item)
    ensures
        final(net).ifaces() == old(net).ifaces(),
        final(net).previous() == Some((now_ms, totals(readings@))),
        r.name@ == "Traffic"@,
        r.health == Health::Neutral,
        r.text@ == traffic_text(
            match old(net).previous() {
                Some((t, p)) => rates(totals(readings@), p, elapsed(now_ms, t)),
                None => LinkStats { upload: 0, download: 0 },
            },
        ),
{
    let stats = net.stats(readings, now_ms);
    let mut text = String::from_str("net \u{2191}");
    let up = stats.pretty_upload();
    text.append(up.as_str());
    text.append(" / \u{2193}");
    let down = stats.pretty_download();
    text.append(down.as_str());
    proof {
        assert(text@ =~= traffic_text(stats));
    }
    Item { name: String::from_str("Traffic"), text, health: Health::Neutral }
}

/// The volume entry, from the latest volume reading.
pub fn get_volume(audio: &mut Audio, mailbox: &mut Mailbox) -> (r: Item)
    ensures
        final(mailbox)@ is None,
        final(audio).last() == match old(mailbox)@ {
            Some(v) => v,
            None => old(audio).last(),
        },
        r.name@ == "AudioVolume"@,
        r.health == Health::Neutral,
        r.text@ == "aud "@ + dec(final(audio).last() as nat) + " %"@,
{
    let v = audio.get_volume(mailbox);
    let mut text = String::from_str("aud ");
    push_decimal(&mut text, v as u64);
    text.append(" %");
    Item { name: String::from_str("AudioVolume"), text, health: Health::Neutral }
}

/// An amount in kilobytes as gigabytes, in tenths, rounded half up.
pub open spec fn giga_tenths(amount: u64) -> nat {
    (amount / 100_000 + if amount % 100_000 >= 50_000 {
        1int
    } else {
        0int
    }) as nat
}

/// A count of tenths with one decimal place.
pub open spec fn tenths_text(t: nat) -> Seq<char> {
    dec(t / 10) + "."@ + dec(t % 10)
}

/// The memory entry's text: used and total in gigabytes.
pub open spec fn memory_text(info: MemInfo) -> Seq<char> {
    "mem "@ + tenths_text(giga_tenths(info.used)) + "/"@ + tenths_text(giga_tenths(info.total))
}

fn push_giga(s: &mut String, amount: u64)
    ensures
        final(s)@ == old(s)@ + tenths_text(giga_tenths(amount)),
{
    let t: u64 = amount / 100_000 + if amount % 100_000 >= 50_000 {
        1u64
    } else {
        0u64
    };
    push_decimal(s, t / 10);
    s.append(".");
    push_decimal(s, t % 10);
    proof {
        assert(final(s)@ =~= old(s)@ + tenths_text(giga_tenths(amount)));
    }
}

/// The memory record.
pub fn format_mem(info: MemInfo) -> (r: i3::Item)
    ensures
        r@ == (i3::ItemView {
            name: "Memory"@,
            full_text: memory_text(info),
            color: color_of(memory_health_spec(info.used, info.total)),
        }),
{
    let mut text = String::from_str("mem ");
    push_giga(&mut text, info.used);
    text.append("/");
    push_giga(&mut text, info.total);
    proof {
        assert(text@ =~= memory_text(info));
    }
    let item = Item {
        name: String::from_str("Memory"),
        text,
        health: memory_health(info.used, info.total),
    };
    item.to_i3_item()
}

/// The position of the first `c` at or after `i` in `s` (`s.len()` if none).
pub open spec fn find_char(s: Seq<char>, c: char, i: int) -> int
    decreases s.len() - i,
{
    if i < s.len() && s[i] != c {
        find_char(s, c, i + 1)
    } else {
        i
    }
}

/// The second space-separated field of the load-average text (the
/// five-minute average), if there is a first space.
pub open spec fn second_field(s: Seq<char>) -> Option<Seq<char>> {
    let a = find_char(s, ' ', 0);
    if a >= s.len() {
        None
    } else {
        Some(s.subrange(a + 1, find_char(s, ' ', a + 1)))
    }
}

fn find_char_exec(s: &str, c: char, i: usize, n: usize) -> (r: usize)
    requires
        n == s@.len(),
        i <= n,
    ensures
        r == find_char(s@, c, i as int),
        i <= r <= n,
{
    let mut k = i;
    while k < n && s.get_char(k) != c
        invariant
            n == s@.len(),
            i <= k <= n,
            find_char(s@, c, k as int) == find_char(s@, c, i as int),
        decreases n - k,
    {
        k = k + 1;
    }
    k
}

/// The load-average record, from the load-average text; `None` when the
/// text has no second field.
pub fn get_cpu(loadavg: &str) -> (r: Option<i3::Item>)
    ensures
        match second_field(loadavg@) {
            None => r is None,
            Some(f) => r is Some && r->0@ == (i3::ItemView {
                name: "CPU Load Average"@,
                full_text: "cpu "@ + f,
                color: color_of(Health::Neutral),
            }),
        },
{
    let n = loadavg.unicode_len();
    let a = find_char_exec(loadavg, ' ', 0, n);
    if a >= n {
        return None;
    }
    let b = find_char_exec(loadavg, ' ', a + 1, n);
    let field = loadavg.substring_char(a + 1, b);
    let mut text = String::from_str("cpu ");
    text.append(field);
    let item = Item { name: String::from_str("CPU Load Average"), text, health: Health::Neutral };
    Some(item.to_i3_item())
}

/// The date-time entry's text: `year.MM.DD hh.mm`.
pub open spec fn date_time_text(year: i32, month: u32, day: u32, hour: u32, minute: u32) -> Seq<
    char,
> {
    dec_signed(year as int) + "."@ + dec2(month as nat) + "."@ + dec2(day as nat) + " "@ + dec2(
        hour as nat,
    ) + "."@ + dec2(minute as nat)
}

/// Renders a local date and time; see [`date_time_text`].
pub fn format_date_time(year: i32, month: u32, day: u32, hour: u32, minute: u32) -> (r: String)
    ensures
        r@ == date_time_text(year, month, day, hour, minute),
{
    let mut s = String::new();
    push_signed(&mut s, year as i64);
    s.append(".");
    push_decimal2(&mut s, month as u64);
    s.append(".");
    push_decimal2(&mut s, day as u64);
    s.append(" ");
    push_decimal2(&mut s, hour as u64);
    s.append(".");
    push_decimal2(&mut s, minute as u64);
    proof {
        assert(s@ =~= date_time_text(year, month, day, hour, minute));
    }
    s
}

/// A local wall-clock reading, as the calendar fields the entry shows.
#[derive(Clone, Copy, Debug, PartialEq, Eq, Structural)]
pub struct LocalTime {
    pub year: i32,
    pub month: u32,
    pub day: u32,
    pub hour: u32,
    pub minute: u32,
}

/// The date-time entry for the local time `now`.
pub fn get_date_time(now: &LocalTime) -> (r: Item)
    ensures
        r.name@ == "DateTime"@,
        r.health == Health::Neutral,
        r.text@ == date_time_text(now.year, now.month, now.day, now.hour, now.minute),
{
    let text = format_date_time(now.year, now.month, now.day, now.hour, now.minute);
    Item { name: String::from_str("DateTime"), text, health: Health::Neutral }
}

} // verus!
