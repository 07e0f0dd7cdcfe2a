//! The bar protocol: the ordered latest-value view of status entries and
//! its rendering as an unterminated JSON stream of frames.
use vstd::prelude::*;
use crate::text::digit_char;

verus! {

/// One record of a frame: a named, colored text.
pub struct Item {
    pub name: String,
    pub full_text: String,
    pub color: String,
}

/// The mathematical content of an [`Item`].
pub struct ItemView {
    pub name: Seq<char>,
    pub full_text: Seq<char>,
    pub color: Seq<char>,
}

impl View for Item {
    type V = ItemView;

    open spec fn view(&self) -> ItemView {
        ItemView { name: self.name@, full_text: self.full_text@, color: self.color@ }
    }
}

/// The names of a sequence of records, in order.
pub open spec fn names(s: Seq<ItemView>) -> Seq<Seq<char>> {
    s.map_values(|it: ItemView| it.name)
}

/// No name occurs twice.
pub open spec fn unique_names(s: Seq<ItemView>) -> bool {
    forall|i: int, j: int| 0 <= i < j < s.len() ==> s[i].name != s[j].name
}

/// Whether some record carries the name `n`.
pub open spec fn has_name(s: Seq<ItemView>, n: Seq<char>) -> bool {
    exists|i: int| 0 <= i < s.len() && s[i].name == n
}

/// Merging one entry into the view: it replaces the record of the same name
/// in place, or is appended when its name is new.
pub open spec fn merge(s: Seq<ItemView>, it: ItemView) -> Seq<ItemView> {
    if has_name(s, it.name) {
        s.update(choose|i: int| 0 <= i < s.len() && s[i].name == it.name, it)
    } else {
        s.push(it)
    }
}

/// Merging a sequence of entries, oldest first.
pub open spec fn merge_all(s: Seq<ItemView>, items: Seq<ItemView>) -> Seq<ItemView>
    decreases items.len(),
{
    if items.len() == 0 {
        s
    } else {
        merge(merge_all(s, items.drop_last()), items.last())
    }
}

/// The distinct names of `ns`, in the order of their first occurrence.
pub open spec fn first_seen(ns: Seq<Seq<char>>) -> Seq<Seq<char>>
    decreases ns.len(),
{
    if ns.len() == 0 {
        Seq::empty()
    } else {
        let p = first_seen(ns.drop_last());
        if p.contains(ns.last()) {
            p
        } else {
            p.push(ns.last())
        }
    }
}

/// Merging keeps the names unique.
pub proof fn lemma_merge_unique(s: Seq<ItemView>, it: ItemView)
    requires
        unique_names(s),
    ensures
        unique_names(merge(s, it)),
{
}

/// Whatever entries are submitted, the view lists their distinct names in
/// the order in which each name was first submitted, each name once.
pub proof fn lemma_order_is_first_seen(items: Seq<ItemView>)
    ensures
        names(merge_all(Seq::empty(), items)) == first_seen(names(items)),
        unique_names(merge_all(Seq::empty(), items)),
    decreases items.len(),
{
    if items.len() > 0 {
        let prev = items.drop_last();
        let it = items.last();
        lemma_order_is_first_seen(prev);
        let s = merge_all(Seq::empty(), prev);
        assert(names(items).drop_last() =~= names(prev));
        assert(names(items).last() == it.name);
        if has_name(s, it.name) {
            let i = choose|i: int| 0 <= i < s.len() && s[i].name == it.name;
            assert(names(s)[i] == it.name);
            assert(names(merge(s, it)) =~= names(s));
        } else {
            assert(!names(s).contains(it.name)) by {
                if names(s).contains(it.name) {
                    let k = choose|k: int| 0 <= k < names(s).len() && names(s)[k] == it.name;
                    assert(s[k].name == it.name);
                }
            }
            assert(names(merge(s, it)) =~= names(s).push(it.name));
        }
    }
}

/// Submitting an entry whose name is already shown replaces that record's
/// text and color where it stands: no name moves and no other record changes.
pub proof fn lemma_resubmit_in_place(s: Seq<ItemView>, it: ItemView)
    requires
        unique_names(s),
        has_name(s, it.name),
    ensures
        names(merge(s, it)) == names(s),
        exists|i: int|
            0 <= i < s.len() && s[i].name == it.name && merge(s, it)[i] == it && (forall|j: int|
                0 <= j < s.len() && j != i ==> merge(s, it)[j] == s[j]),
{
    let i = choose|i: int| 0 <= i < s.len() && s[i].name == it.name;
    assert(names(merge(s, it)) =~= names(s));
    assert(merge(s, it)[i] == it);
}

/// The last entry named `n` in `items`, if any.
pub open spec fn last_named(items: Seq<ItemView>, n: Seq<char>) -> Option<ItemView>
    decreases items.len(),
{
    if items.len() == 0 {
        None
    } else if items.last().name == n {
        Some(items.last())
    } else {
        last_named(items.drop_last(), n)
    }
}

/// Taking in any batch of entries keeps every shown name at its position,
/// only appends new names, and leaves each record equal to the last entry
/// of its name in the batch, or unchanged when the batch has none.
pub proof fn lemma_last_writer_wins(s: Seq<ItemView>, items: Seq<ItemView>)
    requires
        unique_names(s),
    ensures
        unique_names(merge_all(s, items)),
        merge_all(s, items).len() >= s.len(),
        forall|j: int| 0 <= j < s.len() ==> #[trigger] merge_all(s, items)[j].name == s[j].name,
        forall|j: int|
            0 <= j < merge_all(s, items).len() ==> match last_named(
                items,
                #[trigger] merge_all(s, items)[j].name,
            ) {
                Some(x) => merge_all(s, items)[j] == x,
                None => j < s.len() && merge_all(s, items)[j] == s[j],
            },
    decreases items.len(),
{
    if items.len() > 0 {
        let prev = items.drop_last();
        let it = items.last();
        lemma_last_writer_wins(s, prev);
        let r = merge_all(s, prev);
        lemma_merge_unique(r, it);
        let r2 = merge(r, it);
        assert(r2 == merge_all(s, items));
        if has_name(r, it.name) {
            let i = choose|i: int| 0 <= i < r.len() && r[i].name == it.name;
            assert(r2 == r.update(i, it));
            assert forall|j: int| 0 <= j < r2.len() implies match last_named(items, #[trigger] r2[j].name) {
                Some(x) => r2[j] == x,
                None => j < s.len() && r2[j] == s[j],
            } by {
                if j != i {
                    assert(r2[j] == r[j]);
                    assert(r[j].name != it.name);
                }
            }
        } else {
            assert(r2 == r.push(it));
            assert forall|j: int| 0 <= j < r2.len() implies match last_named(items, #[trigger] r2[j].name) {
                Some(x) => r2[j] == x,
                None => j < s.len() && r2[j] == s[j],
            } by {
                if j < r.len() {
                    assert(r2[j] == r[j]);
                    assert(r[j].name != it.name);
                }
            }
            assert forall|j: int| 0 <= j < s.len() implies #[trigger] r2[j].name == s[j].name by {
                assert(r2[j] == r[j]);
            }
        }
    }
}

/// Taking in entries batch by batch, one batch per tick, leaves the same
/// view as taking them in one by one: how the entries were split across
/// ticks does not matter to the order or the records shown.
pub proof fn lemma_batches_compose(s: Seq<ItemView>, a: Seq<ItemView>, b: Seq<ItemView>)
    ensures
        merge_all(merge_all(s, a), b) == merge_all(s, a + b),
    decreases b.len(),
{
    if b.len() == 0 {
        assert(a + b =~= a);
    } else {
        lemma_batches_compose(s, a, b.drop_last());
        assert((a + b).drop_last() =~= a + b.drop_last());
        assert((a + b).last() == b.last());
    }
}

/// The JSON text of one record, fields in declaration order.
pub open spec fn item_json(it: ItemView) -> Seq<char> {
    "{\"name\":"@ + json_string(it.name) + ",\"full_text\":"@ + json_string(it.full_text)
        + ",\"color\":"@ + json_string(it.color) + "}"@
}

/// The records' JSON texts separated by commas.
pub open spec fn items_json(s: Seq<ItemView>) -> Seq<char>
    decreases s.len(),
{
    if s.len() == 0 {
        Seq::empty()
    } else if s.len() == 1 {
        item_json(s[0])
    } else {
        items_json(s.drop_last()) + ","@ + item_json(s.last())
    }
}

/// One frame: the JSON array of all records.
pub open spec fn frame_json(s: Seq<ItemView>) -> Seq<char> {
    "["@ + items_json(s) + "]"@
}

/// What one tick appends to the stream: the frame as the next element of
/// the open outer array, and a line break.
pub open spec fn stream_chunk(opened: bool, s: Seq<ItemView>) -> Seq<char> {
    (if opened {
        ","@
    } else {
        "["@
    }) + frame_json(s) + "\n"@
}

/// The header line that opens the stream.
pub open spec fn header_json() -> Seq<char> {
    "{"@ + json_string("version"@) + ":"@ + json_string("1"@) + "}"@ + "\n"@
}

/// A lowercase hexadecimal digit.
pub open spec fn hex_char(d: int) -> char {
    if d < 10 {
        digit_char(d)
    } else if d == 10 {
        'a'
    } else if d == 11 {
        'b'
    } else if d == 12 {
        'c'
    } else if d == 13 {
        'd'
    } else if d == 14 {
        'e'
    } else {
        'f'
    }
}

/// How one character stands inside a JSON string: quote and backslash get
/// a backslash; backspace, tab, line feed, form feed and carriage return
/// their short escapes; the other control characters below 0x20 a `\u00XX`
/// escape in lowercase hex; every other character stands as it is.
pub open spec fn json_escape(c: char) -> Seq<char> {
    let n = c as u32 as int;
    if c == '"' {
        seq!['\\', '"']
    } else if c == '\\' {
        seq!['\\', '\\']
    } else if n == 8 {
        seq!['\\', 'b']
    } else if n == 9 {
        seq!['\\', 't']
    } else if n == 10 {
        seq!['\\', 'n']
    } else if n == 12 {
        seq!['\\', 'f']
    } else if n == 13 {
        seq!['\\', 'r']
    } else if n < 32 {
        seq!['\\', 'u', '0', '0', hex_char(n / 16), hex_char(n % 16)]
    } else {
        seq![c]
    }
}

/// The escaped characters of `s`, in order.
pub open spec fn json_escape_all(s: Seq<char>) -> Seq<char>
    decreases s.len(),
{
    if s.len() == 0 {
        Seq::empty()
    } else {
        json_escape_all(s.drop_last()) + json_escape(s.last())
    }
}

/// The JSON string literal that encodes `s`: its escaped characters between
/// double quotes.
pub open spec fn json_string(s: Seq<char>) -> Seq<char> {
    seq!['"'] + json_escape_all(s) + seq!['"']
}

/// Relies on `serde_json::to_string` applied to a `str`: it writes the
/// string into an in-memory buffer, which cannot fail, between double
/// quotes, escaping each byte by serde_json's fixed table (see
/// [`json_escape`]); bytes of non-ASCII characters are copied unchanged.
#[verifier::external_body]
fn quote(s: &str) -> (r: String)
    ensures
        r@ == json_string(s@),
{
    match serde_json::to_string(s) {
        Ok(t) => t,
        Err(_) => String::new(),
    }
}

/// The header line that opens the stream.
pub fn header() -> (r: String)
    ensures
        r@ == header_json(),
        r@ == "{\"version\":\"1\"}\n"@,
{
    let mut r = String::new();
    r.append("{");
    let k = quote("version");
    r.append(k.as_str());
    r.append(":");
    let v = quote("1");
    r.append(v.as_str());
    r.append("}");
    r.append("\n");
    proof {
        assert(r@ =~= header_json());
        reveal_strlit("version");
        reveal_strlit("1");
        lemma_plain_word_unescaped("version"@);
        lemma_plain_word_unescaped("1"@);
        reveal_strlit("{");
        reveal_strlit(":");
        reveal_strlit("}");
        reveal_strlit("\n");
        reveal_strlit("{\"version\":\"1\"}\n");
        assert(r@ =~= "{\"version\":\"1\"}\n"@);
    }
    r
}

/// A string of letters and digits needs no escape.
proof fn lemma_plain_word_unescaped(s: Seq<char>)
    requires
        forall|i: int| 0 <= i < s.len() ==> ('0' <= #[trigger] s[i] <= '9' || 'a' <= s[i] <= 'z'),
    ensures
        json_escape_all(s) == s,
    decreases s.len(),
{
    if s.len() > 0 {
        lemma_plain_word_unescaped(s.drop_last());
        assert(json_escape_all(s) =~= s);
    }
}

/// Appends the JSON text of one record to `out`.
fn push_item_json(out: &mut String, it: &Item)
    ensures
        final(out)@ == old(out)@ + item_json(it@),
{
    out.append("{\"name\":");
    let q = quote(it.name.as_str());
    out.append(q.as_str());
    out.append(",\"full_text\":");
    let q = quote(it.full_text.as_str());
    out.append(q.as_str());
    out.append(",\"color\":");
    let q = quote(it.color.as_str());
    out.append(q.as_str());
    out.append("}");
    proof {
        assert(final(out)@ =~= old(out)@ + item_json(it@));
    }
}

/// The ordered latest-value view of the status entries, and the state of
/// the stream it renders into.
pub struct Bar {
    items: Vec<Item>,
    opened: bool,
}

impl View for Bar {
    type V = Seq<ItemView>;

    closed spec fn view(&self) -> Seq<ItemView> {
        self.items@.map_values(|it: Item| it@)
    }
}

impl Bar {
    /// Whether a frame has been written, so that the outer array is open.
    pub closed spec fn opened(&self) -> bool {
        self.opened
    }

    /// The records carry distinct names.
    pub open spec fn wf(&self) -> bool {
        unique_names(self@)
    }

    /// An empty view, before any frame.
    pub fn new() -> (r: Bar)
        ensures
            r@ == Seq::<ItemView>::empty(),
            r.wf(),
            !r.opened(),
    {
        let r = Bar { items: Vec::new(), opened: false };
        proof {
            assert(r@ =~= Seq::<ItemView>::empty());
        }
        r
    }

    /// Takes in one entry: it replaces the record of the same name, keeping
    /// its position, or is appended.
    pub fn submit(&mut self, item: Item)
        requires
            old(self).wf(),
        ensures
            final(self)@ == merge(old(self)@, item@),
            final(self).wf(),
            final(self).opened() == old(self).opened(),
    {
        proof {
            lemma_merge_unique(self@, item@);
        }
        let ghost s = self@;
        let ghost o = self.opened;
        let mut i: usize = 0;
        while i < self.items.len()
            invariant
                i <= self.items.len(),
                self@ == s,
                self.opened == o,
                o == old(self).opened,
                s == old(self)@,
                unique_names(s),
                forall|j: int| 0 <= j < i ==> s[j].name != item@.name,
            decreases self.items.len() - i,
        {
            if self.items[i].name == item.name {
                let ghost it = item@;
                proof {
                    assert(s[i as int].name == it.name);
                    assert(has_name(s, it.name));
                    let k = choose|k: int| 0 <= k < s.len() && s[k].name == it.name;
                    assert(k == i) by {
                        if k != i {
                            assert(s[k].name == s[i as int].name);
                        }
                    }
                }
                self.items.set(i, item);
                assert(self@ =~= s.update(i as int, it));
                return;
            }
            i = i + 1;
        }
        assert(!has_name(s, item@.name));
        let ghost it = item@;
        self.items.push(item);
        assert(self@ =~= s.push(it));
    }

    /// Takes in a batch of entries, oldest first: the drain step of one
    /// tick.
    pub fn submit_all(&mut self, items: Vec<Item>)
        requires
            old(self).wf(),
        ensures
            final(self)@ == merge_all(old(self)@, items@.map_values(|it: Item| it@)),
            final(self).wf(),
            final(self).opened() == old(self).opened(),
    {
        let ghost vs = items@.map_values(|it: Item| it@);
        let n = items.len();
        let mut rest = items;
        let mut i: usize = 0;
        while rest.len() > 0
            invariant
                i + rest@.len() == vs.len(),
                vs.len() == n,
                forall|j: int| 0 <= j < rest@.len() ==> rest@[j]@ == #[trigger] vs[i + j],
                self.wf(),
                self@ == merge_all(old(self)@, vs.take(i as int)),
                self.opened() == old(self).opened(),
            decreases rest@.len(),
        {
            let ghost before = rest@;
            let it = rest.remove(0);
            proof {
                assert(before[0]@ == vs[i + 0]);
                assert(it@ == vs[i as int]);
                assert forall|j: int| 0 <= j < rest@.len() implies rest@[j]@ == #[trigger] vs[i + 1 + j] by {
                    assert(rest@[j] == before[j + 1]);
                    assert(before[j + 1]@ == vs[i + (j + 1)]);
                }
                let p = vs.take(i as int + 1);
                assert(p.drop_last() =~= vs.take(i as int));
                assert(forall|j: int| 0 <= j < rest@.len() ==> rest@[j]@ == #[trigger] vs[i + 1 + j]);
            }
            self.submit(it);
            i = i + 1;
        }
        proof {
            assert(vs.take(i as int) =~= vs);
        }
    }

    /// The JSON text of the current frame.
    pub fn frame(&self) -> (r: String)
        ensures
            r@ == frame_json(self@),
    {
        let mut r = String::new();
        r.append("[");
        let mut i: usize = 0;
        while i < self.items.len()
            invariant
                i <= self.items.len(),
                r@ == "["@ + items_json(self@.take(i as int)),
            decreases self.items.len() - i,
        {
            if i > 0 {
                r.append(",");
            }
            push_item_json(&mut r, &self.items[i]);
            proof {
                let t = self@.take(i as int + 1);
                assert(t.drop_last() =~= self@.take(i as int));
                assert(t.last() == self.items@[i as int]@);
            }
            i = i + 1;
        }
        r.append("]");
        proof {
            assert(self@.take(self@.len() as int) =~= self@);
        }
        r
    }

    /// What this tick appends to the stream: the current frame as the next
    /// element of the outer array. The first call also opens that array.
    pub fn render(&mut self) -> (r: String)
        ensures
            r@ == stream_chunk(old(self).opened(), old(self)@),
            final(self)@ == old(self)@,
            final(self).opened(),
    {
        let mut r = String::new();
        if self.opened {
            r.append(",");
        } else {
            r.append("[");
        }
        let f = self.frame();
        r.append(f.as_str());
        r.append("\n");
        self.opened = true;
        proof {
            assert(r@ =~= stream_chunk(old(self).opened(), old(self)@));
        }
        r
    }
}

} // verus!
