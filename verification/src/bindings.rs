//! Text slots: markers of the form `{{name}}`, and the columns of values that fill them.
use vstd::prelude::*;
use vstd::utf8::encode_utf8;

use crate::bytes::{byte_count, byte_offset, offset_ends, offset_grows, offset_of};
use crate::command::{models, Command, CommandView};
use crate::documents::FullBleedError;
use crate::findings::{debug_string, debug_text};
use crate::tally::list_holds;
use crate::text::{
    char_is_alphanumeric, chars_at, chars_of, concat, count_text, decimal, is_alphanumeric, join,
    join_strings, same, slice_chars, stands_at, text_of, texts, trim, trim_chars,
};

verus! {

broadcast use vstd::string::group_string_axioms;

// ---------------------------------------------------------------------------------------------
// Slots in a text
// ---------------------------------------------------------------------------------------------
/// The characters of a slot name.
pub open spec fn is_slot_char(c: char) -> bool {
    is_alphanumeric(c) || c == '_' || c == '-' || c == '.'
}

/// A slot name: one to 64 letters, digits, underscores, hyphens and dots.
pub open spec fn is_slot_name(s: Seq<char>) -> bool {
    &&& 0 < s.len() <= 64
    &&& forall|i: int| 0 <= i < s.len() ==> is_slot_char(#[trigger] s[i])
}

/// Tells whether a text can name a slot.
pub fn valid_binding_slot_name(name: &[char]) -> (r: bool)
    ensures
        r == is_slot_name(name@),
{
    if name.len() == 0 || name.len() > 64 {
        return false;
    }
    let mut i: usize = 0;
    while i < name.len()
        invariant
            i <= name@.len(),
            forall|k: int| 0 <= k < i ==> is_slot_char(#[trigger] name@[k]),
        decreases name@.len() - i,
    {
        let c = name[i];
        if !(char_is_alphanumeric(c) || c == '_' || c == '-' || c == '.') {
            return false;
        }
        i += 1;
    }
    true
}

/// The first place from `from` on at which `needle` stands.
pub open spec fn find_from(hay: Seq<char>, needle: Seq<char>, from: int) -> Option<int>
    decreases hay.len() - from,
{
    if from + needle.len() > hay.len() {
        None
    } else if stands_at(hay, needle, from) {
        Some(from)
    } else if from >= hay.len() {
        None
    } else {
        find_from(hay, needle, from + 1)
    }
}

/// What is found stands there, and nowhere before.
pub proof fn found_stands(hay: Seq<char>, needle: Seq<char>, from: int)
    requires
        0 <= from,
    ensures
        match find_from(hay, needle, from) {
            Some(i) => {
                &&& from <= i
                &&& stands_at(hay, needle, i)
                &&& forall|k: int| from <= k < i ==> !#[trigger] stands_at(hay, needle, k)
            },
            None => forall|k: int| from <= k ==> !#[trigger] stands_at(hay, needle, k),
        },
    decreases hay.len() - from,
{
    if from + needle.len() <= hay.len() && !stands_at(hay, needle, from) && from < hay.len() {
        found_stands(hay, needle, from + 1);
    }
}

/// The first place from `from` on at which `needle` stands.
pub fn find(hay: &[char], needle: &[char], from: usize) -> (r: Option<usize>)
    requires
        from <= hay@.len(),
    ensures
        match r {
            Some(i) => find_from(hay@, needle@, from as int) == Some(i as int) && from <= i && i
                + needle@.len() <= hay@.len(),
            None => find_from(hay@, needle@, from as int) is None,
        },
{
    let n: usize = hay.len();
    let mut i: usize = from;
    loop
        invariant
            from <= i <= n == hay@.len(),
            find_from(hay@, needle@, i as int) == find_from(hay@, needle@, from as int),
        decreases n - i,
    {
        if n - i < needle.len() {
            return None;
        }
        if chars_at(hay, needle, i) {
            return Some(i);
        }
        if i == n {
            return None;
        }
        i += 1;
    }
}

/// A slot in a text: the bytes at which its marker starts and ends, and its name.
pub struct SlotSpan {
    pub start: usize,
    pub end: usize,
    pub name: String,
}

/// The same as plain numbers and characters.
pub struct SlotView {
    pub start: int,
    pub end: int,
    pub name: Seq<char>,
}

/// The views of a list of slots.
pub open spec fn slot_views(v: Seq<SlotSpan>) -> Seq<SlotView> {
    Seq::new(
        v.len(),
        |i: int| SlotView { start: v[i].start as int, end: v[i].end as int, name: v[i].name@ },
    )
}

/// The slot whose marker goes from character `a` to character `b`.
pub open spec fn slot_at(s: Seq<char>, a: int, b: int, name: Seq<char>) -> SlotView {
    SlotView { start: byte_offset(s, a), end: byte_offset(s, b), name }
}

/// The slots of a text from character `from` on. A marker goes from `{{` to the next `}}`; one whose trimmed
/// content is no slot name is passed over.
pub open spec fn slots_from(s: Seq<char>, from: int) -> Seq<SlotView>
    decreases s.len() - from,
{
    match find_from(s, seq!['{', '{'], from) {
        None => Seq::empty(),
        Some(a) => match find_from(s, seq!['}', '}'], a + 2) {
            None => Seq::empty(),
            Some(b) => if from <= a && a + 2 <= b && b + 2 <= s.len() {
                let name = trim(s.subrange(a + 2, b));
                let rest = slots_from(s, b + 2);
                if is_slot_name(name) {
                    seq![slot_at(s, a, b + 2, name)] + rest
                } else {
                    rest
                }
            } else {
                Seq::empty()
            },
        },
    }
}

/// The slots of a text.
pub fn binding_slot_spans(text: &str) -> (out: Vec<SlotSpan>)
    ensures
        slot_views(out@) == slots_from(text@, 0),
{
    let chars = chars_of(text);
    let mut opener: Vec<char> = Vec::new();
    opener.push('{');
    opener.push('{');
    let mut closer: Vec<char> = Vec::new();
    closer.push('}');
    closer.push('}');
    let mut out: Vec<SlotSpan> = Vec::new();
    let mut search: usize = 0;
    let len: usize = chars.len();
    let bytes: usize = byte_count(text);
    let ghost all = slots_from(text@, 0);
    proof {
        assert(opener@ =~= seq!['{', '{']);
        assert(closer@ =~= seq!['}', '}']);
        assert(slot_views(out@) + all =~= all);
    }
    loop
        invariant
            search <= len == chars@.len(),
            chars@ == text@,
            bytes == encode_utf8(text@).len(),
            opener@ == seq!['{', '{'],
            closer@ == seq!['}', '}'],
            slot_views(out@) + slots_from(text@, search as int) == all,
            all == slots_from(text@, 0),
        decreases chars@.len() - search,
    {
        let ghost held = slot_views(out@);
        let a: usize = match find(&chars, &opener, search) {
            Some(a) => a,
            None => {
                proof {
                    assert(held + Seq::<SlotView>::empty() =~= held);
                }
                return out;
            },
        };
        let b: usize = match find(&chars, &closer, a + 2) {
            Some(b) => b,
            None => {
                proof {
                    assert(held + Seq::<SlotView>::empty() =~= held);
                }
                return out;
            },
        };
        let name = trim_chars(&slice_chars(&chars, a + 2, b));
        let ghost rest = slots_from(text@, b + 2);
        if valid_binding_slot_name(&name) {
            let start: usize = offset_of(&chars, a);
            let end: usize = offset_of(&chars, b + 2);
            let span = SlotSpan { start, end, name: text_of(&name) };
            let ghost view = slot_at(text@, a as int, b + 2, name@);
            out.push(span);
            proof {
                assert(slot_views(out@) =~= held.push(view));
                assert(held + (seq![view] + rest) =~= held.push(view) + rest);
            }
        }
        search = b + 2;
    }
}

/// The slots of a text follow each other: each ends before the next one starts.
pub proof fn slots_follow_each_other(s: Seq<char>, from: int)
    requires
        0 <= from <= s.len(),
    ensures
        forall|i: int|
            0 <= i < slots_from(s, from).len() ==> {
                let t = #[trigger] slots_from(s, from)[i];
                byte_offset(s, from) <= t.start && t.start + 4 <= t.end <= encode_utf8(s).len()
                    && is_slot_name(t.name)
            },
        forall|i: int, j: int|
            0 <= i < j < slots_from(s, from).len() ==> (#[trigger] slots_from(s, from)[i]).end <= (
            #[trigger] slots_from(s, from)[j]).start,
    decreases s.len() - from,
{
    offset_ends(s);
    match find_from(s, seq!['{', '{'], from) {
        None => {},
        Some(a) => match find_from(s, seq!['}', '}'], a + 2) {
            None => {},
            Some(b) => {
                if from <= a && a + 2 <= b && b + 2 <= s.len() {
                    slots_follow_each_other(s, b + 2);
                    offset_grows(s, from, a);
                    offset_grows(s, a, b + 2);
                    offset_grows(s, b + 2, s.len() as int);
                    let name = trim(s.subrange(a + 2, b));
                    let rest = slots_from(s, b + 2);
                    let all = slots_from(s, from);
                    if is_slot_name(name) {
                        assert(all == seq![slot_at(s, a, b + 2, name)] + rest);
                        assert forall|i: int| 0 <= i < all.len() implies {
                            let t = #[trigger] all[i];
                            byte_offset(s, from) <= t.start && t.start + 4 <= t.end
                                <= encode_utf8(s).len() && is_slot_name(t.name)
                        } by {
                            if i > 0 {
                                assert(all[i] == rest[i - 1]);
                            }
                        }
                        assert forall|i: int, j: int| 0 <= i < j < all.len() implies (
                        #[trigger] all[i]).end <= (#[trigger] all[j]).start by {
                            assert(all[j] == rest[j - 1]);
                            if i > 0 {
                                assert(all[i] == rest[i - 1]);
                            }
                        }
                    }
                }
            },
        },
    }
}

/// The names of the slots of a text.
pub open spec fn slot_names(s: Seq<char>) -> Seq<Seq<char>> {
    let slots = slots_from(s, 0);
    Seq::new(slots.len(), |i: int| slots[i].name)
}

/// The names of the slots of a text, in order.
pub fn binding_slot_names(text: &str) -> (out: Vec<String>)
    ensures
        texts(out@) == slot_names(text@),
{
    let spans = binding_slot_spans(text);
    let mut out: Vec<String> = Vec::new();
    let mut i: usize = 0;
    while i < spans.len()
        invariant
            i <= spans@.len(),
            out@.len() == i,
            forall|k: int| 0 <= k < i ==> (#[trigger] out@[k])@ == spans@[k].name@,
        decreases spans@.len() - i,
    {
        out.push(spans[i].name.clone());
        i += 1;
    }
    proof {
        assert(slot_views(spans@).len() == spans@.len());
        assert(texts(out@) =~= slot_names(text@)) by {
            assert forall|k: int| 0 <= k < out@.len() implies texts(out@)[k] == slot_names(
                text@,
            )[k] by {
                assert(slot_views(spans@)[k].name == spans@[k].name@);
                assert(out@[k]@ == spans@[k].name@);
            }
        }
    }
    out
}

// ---------------------------------------------------------------------------------------------
// Sorted names
// ---------------------------------------------------------------------------------------------
/// Whether `a` comes before `b` in the order of their characters.
pub open spec fn comes_before(a: Seq<char>, b: Seq<char>) -> bool
    decreases a.len(),
{
    if b.len() == 0 {
        false
    } else if a.len() == 0 {
        true
    } else if a[0] == b[0] {
        comes_before(a.drop_first(), b.drop_first())
    } else {
        a[0] < b[0]
    }
}

fn before(a: &[char], b: &[char]) -> (r: bool)
    ensures
        r == comes_before(a@, b@),
{
    let mut i: usize = 0;
    proof {
        assert(a@.skip(0) =~= a@);
        assert(b@.skip(0) =~= b@);
    }
    loop
        invariant
            i <= a@.len(),
            i <= b@.len(),
            comes_before(a@.skip(i as int), b@.skip(i as int)) == comes_before(a@, b@),
        decreases a@.len() - i,
    {
        if i == b.len() {
            return false;
        }
        if i == a.len() {
            return true;
        }
        if a[i] != b[i] {
            return a[i] < b[i];
        }
        proof {
            assert(a@.skip(i as int).drop_first() =~= a@.skip(i + 1));
            assert(b@.skip(i as int).drop_first() =~= b@.skip(i + 1));
        }
        i += 1;
    }
}

proof fn order_is_total(a: Seq<char>, b: Seq<char>)
    ensures
        a != b ==> comes_before(a, b) || comes_before(b, a),
        !comes_before(a, a),
        comes_before(a, b) ==> !comes_before(b, a),
    decreases a.len(),
{
    if a.len() > 0 && b.len() > 0 && a[0] == b[0] {
        order_is_total(a.drop_first(), b.drop_first());
        if a.drop_first() == b.drop_first() {
            assert(a =~= seq![a[0]] + a.drop_first());
            assert(b =~= seq![b[0]] + b.drop_first());
        }
    }
    if a.len() > 0 {
        order_is_total(a.drop_first(), a.drop_first());
    }
    if a.len() == 0 && b.len() == 0 {
        assert(a =~= b);
    }
}

proof fn order_is_transitive(a: Seq<char>, b: Seq<char>, c: Seq<char>)
    requires
        comes_before(a, b),
        comes_before(b, c),
    ensures
        comes_before(a, c),
    decreases a.len(),
{
    if a.len() > 0 && a[0] == b[0] && b[0] == c[0] {
        order_is_transitive(a.drop_first(), b.drop_first(), c.drop_first());
    }
}

/// Each entry comes before the next ones; so none occurs twice.
pub open spec fn is_sorted(list: Seq<Seq<char>>) -> bool {
    forall|i: int, j: int|
        0 <= i < j < list.len() ==> comes_before(#[trigger] list[i], #[trigger] list[j])
}

/// Puts a name into a sorted list, unless it is there.
fn insert_sorted(list: &mut Vec<String>, name: &str)
    requires
        is_sorted(texts(old(list)@)),
    ensures
        is_sorted(texts(final(list)@)),
        forall|x: Seq<char>| #[trigger]
            texts(final(list)@).contains(x) <==> texts(old(list)@).contains(x) || x == name@,
{
    let key = chars_of(name);
    let ghost start = texts(list@);
    let mut i: usize = 0;
    while i < list.len() && before(&chars_of(&list[i]), &key)
        invariant
            i <= list@.len(),
            start == texts(list@),
            key@ == name@,
            forall|k: int| 0 <= k < i ==> comes_before(#[trigger] start[k], name@),
        decreases list@.len() - i,
    {
        proof {
            assert(start[i as int] == list@[i as int]@);
        }
        i += 1;
    }
    if i < list.len() && same(&list[i], name) {
        proof {
            assert(start[i as int] == name@);
        }
        return;
    }
    proof {
        if i < list@.len() {
            assert(start[i as int] == list@[i as int]@);
            order_is_total(start[i as int], name@);
            assert forall|k: int| i < k < start.len() implies comes_before(
                name@,
                #[trigger] start[k],
            ) by {
                assert(comes_before(start[i as int], start[k]));
                order_is_transitive(name@, start[i as int], start[k]);
            }
        }
    }
    list.insert(i, name.to_owned());
    proof {
        let now = texts(list@);
        assert(now =~= start.insert(i as int, name@));
        assert forall|a: int, b: int| 0 <= a < b < now.len() implies comes_before(
            #[trigger] now[a],
            #[trigger] now[b],
        ) by {
            let oa = if a < i {
                a
            } else {
                a - 1
            };
            let ob = if b < i {
                b
            } else {
                b - 1
            };
            if a != i && b != i {
                assert(comes_before(start[oa], start[ob]));
            } else if b == i {
                assert(comes_before(start[a], name@));
            } else {
                assert(comes_before(name@, start[ob]));
            }
        }
        assert forall|x: Seq<char>| #[trigger] now.contains(x) <==> start.contains(x) || x
            == name@ by {
            if start.contains(x) {
                let k = choose|k: int| 0 <= k < start.len() && start[k] == x;
                if k < i {
                    assert(now[k] == x);
                } else {
                    assert(now[k + 1] == x);
                }
            }
            if x == name@ {
                assert(now[i as int] == x);
            }
            if now.contains(x) {
                let k = choose|k: int| 0 <= k < now.len() && now[k] == x;
                if k < i {
                    assert(start[k] == x);
                } else if k > i {
                    assert(start[k - 1] == x);
                }
            }
        }
    }
}

/// Command `c` draws a text with a slot called `name`. Slots inside forms do not count.
pub open spec fn command_names(c: CommandView, name: Seq<char>) -> bool {
    match c {
        CommandView::DrawString { x, y, text } => slot_names(text).contains(name),
        CommandView::DrawStringTransformed { x, y, text, matrix } => slot_names(text).contains(
            name,
        ),
        _ => false,
    }
}

/// One of the first `n` commands draws a text with a slot called `name`.
pub open spec fn some_names(cs: Seq<CommandView>, n: int, name: Seq<char>) -> bool {
    exists|i: int| 0 <= i < n && command_names(#[trigger] cs[i], name)
}

fn add_names(slots: &mut Vec<String>, text: &str)
    requires
        is_sorted(texts(old(slots)@)),
    ensures
        is_sorted(texts(final(slots)@)),
        forall|x: Seq<char>| #[trigger]
            texts(final(slots)@).contains(x) <==> texts(old(slots)@).contains(x) || slot_names(
                text@,
            ).contains(x),
{
    let names = binding_slot_names(text);
    let ghost start = texts(slots@);
    let ghost all = slot_names(text@);
    let mut i: usize = 0;
    while i < names.len()
        invariant
            i <= names@.len(),
            texts(names@) == all,
            is_sorted(texts(slots@)),
            forall|x: Seq<char>| #[trigger]
                texts(slots@).contains(x) <==> start.contains(x) || all.take(i as int).contains(x),
        decreases names@.len() - i,
    {
        let ghost held = texts(slots@);
        let ghost prefix = all.take(i as int);
        insert_sorted(slots, &names[i]);
        proof {
            assert(all[i as int] == names@[i as int]@);
            assert(all.take(i + 1) =~= prefix.push(all[i as int]));
            assert forall|x: Seq<char>| #[trigger] texts(slots@).contains(x) <==> start.contains(x)
                || all.take(i + 1).contains(x) by {
                vstd::seq_lib::lemma_seq_contains_after_push(prefix, all[i as int], x);
                assert(held.contains(x) <==> start.contains(x) || prefix.contains(x));
            }
        }
        i += 1;
    }
    proof {
        assert(all.take(all.len() as int) =~= all);
        assert(all.len() == names@.len());
    }
}

/// Adds the slots that a page draws to a sorted list.
pub fn collect_binding_slots(commands: &Vec<Command>, slots: &mut Vec<String>)
    requires
        is_sorted(texts(old(slots)@)),
    ensures
        is_sorted(texts(final(slots)@)),
        forall|x: Seq<char>| #[trigger]
            texts(final(slots)@).contains(x) <==> texts(old(slots)@).contains(x) || some_names(
                models(commands@),
                commands@.len() as int,
                x,
            ),
{
    let ghost start = texts(slots@);
    let ghost cs = models(commands@);
    let mut i: usize = 0;
    while i < commands.len()
        invariant
            i <= commands@.len(),
            cs == models(commands@),
            is_sorted(texts(slots@)),
            forall|x: Seq<char>| #[trigger]
                texts(slots@).contains(x) <==> start.contains(x) || some_names(cs, i as int, x),
        decreases commands@.len() - i,
    {
        let ghost held = texts(slots@);
        match &commands[i] {
            Command::DrawString { x: _, y: _, text } => add_names(slots, text),
            Command::DrawStringTransformed { x: _, y: _, text, matrix: _ } => add_names(
                slots,
                text,
            ),
            _ => {},
        }
        proof {
            assert(cs[i as int] == commands@[i as int].model());
            assert forall|x: Seq<char>| #[trigger] texts(slots@).contains(x) <==> start.contains(x)
                || some_names(cs, i + 1, x) by {
                assert(held.contains(x) <==> start.contains(x) || some_names(cs, i as int, x));
                if some_names(cs, i as int, x) {
                    let k = choose|k: int| 0 <= k < i && command_names(#[trigger] cs[k], x);
                    assert(command_names(cs[k], x));
                }
                if command_names(cs[i as int], x) {
                    assert(some_names(cs, i + 1, x));
                }
            }
        }
        i += 1;
    }
}

// ---------------------------------------------------------------------------------------------
// Columns of values
// ---------------------------------------------------------------------------------------------
/// A column: the slot that it fills, and a value per record.
pub struct Column {
    pub slot: String,
    pub values: Vec<String>,
}

/// The place of the column that fills a slot, among the first `n`.
pub open spec fn column_of(columns: Seq<Column>, n: int, slot: Seq<char>) -> Option<int>
    decreases n,
{
    if n <= 0 {
        None
    } else {
        match column_of(columns, n - 1, slot) {
            Some(i) => Some(i),
            None => if columns[n - 1].slot@ == slot {
                Some(n - 1)
            } else {
                None
            },
        }
    }
}

/// The place of the column that fills a slot.
pub open spec fn place(columns: Seq<Column>, slot: Seq<char>) -> Option<int> {
    column_of(columns, columns.len() as int, slot)
}

/// The slots without a column, among the first `n`.
pub open spec fn missing_slots(
    slots: Seq<Seq<char>>,
    columns: Seq<Column>,
    n: int,
) -> Seq<Seq<char>>
    decreases n,
{
    if n <= 0 {
        Seq::empty()
    } else if place(columns, slots[n - 1]) is None {
        missing_slots(slots, columns, n - 1).push(slots[n - 1])
    } else {
        missing_slots(slots, columns, n - 1)
    }
}

/// The columns that fill no slot, among the first `n`.
pub open spec fn unknown_columns(slots: Seq<Seq<char>>, columns: Seq<Column>, n: int) -> Seq<
    Seq<char>,
>
    decreases n,
{
    if n <= 0 {
        Seq::empty()
    } else if slots.contains(columns[n - 1].slot@) {
        unknown_columns(slots, columns, n - 1)
    } else {
        unknown_columns(slots, columns, n - 1).push(columns[n - 1].slot@)
    }
}

/// The `Debug` notation of each text.
pub open spec fn quoted(list: Seq<Seq<char>>) -> Seq<Seq<char>> {
    Seq::new(list.len(), |i: int| debug_text(list[i]))
}

/// The `Debug` notation of a list of texts.
pub open spec fn debug_list(list: Seq<Seq<char>>) -> Seq<char> {
    "["@ + join(quoted(list), ", "@) + "]"@
}

fn debug_list_of(list: &Vec<String>) -> (r: String)
    ensures
        r@ == debug_list(texts(list@)),
{
    let mut parts: Vec<String> = Vec::new();
    let mut i: usize = 0;
    while i < list.len()
        invariant
            i <= list@.len(),
            parts@.len() == i,
            forall|k: int| 0 <= k < i ==> (#[trigger] parts@[k])@ == debug_text(list@[k]@),
        decreases list@.len() - i,
    {
        parts.push(debug_string(&list[i]));
        i += 1;
    }
    proof {
        assert(texts(parts@) =~= quoted(texts(list@)));
    }
    concat(&concat("[", &join_strings(&parts, ", ")), "]")
}

/// What keeps columns from filling slots.
pub enum ColumnFault {
    /// There is no slot.
    NoSlots,
    /// There are more or fewer columns than slots.
    Mismatch,
    /// The slot with this number has no column.
    MissingColumn(int),
    /// The column of the slot with this number has another length than the first.
    RaggedColumn(int),
    /// There are no records.
    NoRecords,
}

/// What is wrong with the columns of the slots from `n` on.
pub open spec fn fault_from(slots: Seq<Seq<char>>, columns: Seq<Column>, n: int) -> Option<
    ColumnFault,
>
    decreases slots.len() - n,
{
    if n >= slots.len() {
        if columns[place(columns, slots[0])->0].values@.len() == 0 {
            Some(ColumnFault::NoRecords)
        } else {
            None
        }
    } else {
        match place(columns, slots[n]) {
            None => Some(ColumnFault::MissingColumn(n)),
            Some(k) => if columns[k].values@.len()
                != columns[place(columns, slots[0])->0].values@.len() {
                Some(ColumnFault::RaggedColumn(n))
            } else {
                fault_from(slots, columns, n + 1)
            },
        }
    }
}

/// What keeps the columns from filling the slots, if anything.
pub open spec fn column_fault(slots: Seq<Seq<char>>, columns: Seq<Column>) -> Option<ColumnFault> {
    if slots.len() == 0 {
        Some(ColumnFault::NoSlots)
    } else if columns.len() != slots.len() {
        Some(ColumnFault::Mismatch)
    } else {
        fault_from(slots, columns, 0)
    }
}

/// How a fault is told.
pub open spec fn tells(
    slots: Seq<Seq<char>>,
    columns: Seq<Column>,
    empty_message: Seq<char>,
    fault: ColumnFault,
    e: FullBleedError,
) -> bool {
    match fault {
        ColumnFault::NoSlots => e matches FullBleedError::InvalidConfiguration(m) && m@
            == empty_message,
        ColumnFault::Mismatch => e matches FullBleedError::InvalidConfiguration(m) && m@
            == "binding columns do not match compiled slots (missing="@ + debug_list(
            missing_slots(slots, columns, slots.len() as int),
        ) + ", unknown="@ + debug_list(unknown_columns(slots, columns, columns.len() as int)) + ")"@,
        ColumnFault::MissingColumn(n) => e matches FullBleedError::InvalidConfiguration(m) && m@
            == "missing binding column for slot "@ + debug_text(slots[n]),
        ColumnFault::RaggedColumn(n) => e matches FullBleedError::InvalidConfiguration(m) && m@
            == "binding column "@ + debug_text(slots[n]) + " has "@ + decimal(
            columns[place(columns, slots[n])->0].values@.len(),
        ) + " rows; expected "@ + decimal(columns[place(columns, slots[0])->0].values@.len()),
        ColumnFault::NoRecords => e is EmptyDocumentSet,
    }
}

fn find_column(columns: &Vec<Column>, slot: &str) -> (r: Option<usize>)
    ensures
        match r {
            Some(k) => place(columns@, slot@) == Some(k as int) && k < columns@.len(),
            None => place(columns@, slot@) is None,
        },
{
    let mut k: usize = 0;
    while k < columns.len()
        invariant
            k <= columns@.len(),
            column_of(columns@, k as int, slot@) is None,
        decreases columns@.len() - k,
    {
        if same(&columns[k].slot, slot) {
            proof {
                assert(column_of(columns@, k + 1, slot@) == Some(k as int));
                column_stays(columns@, k + 1, columns@.len() as int, slot@);
            }
            return Some(k);
        }
        k += 1;
    }
    None
}

proof fn column_stays(columns: Seq<Column>, a: int, b: int, slot: Seq<char>)
    requires
        0 <= a <= b,
        column_of(columns, a, slot) is Some,
    ensures
        column_of(columns, b, slot) == column_of(columns, a, slot),
    decreases b,
{
    if a < b {
        column_stays(columns, a, b - 1, slot);
    }
}

fn mismatch_message(slots: &Vec<String>, columns: &Vec<Column>) -> (r: String)
    ensures
        r@ == "binding columns do not match compiled slots (missing="@ + debug_list(
            missing_slots(texts(slots@), columns@, slots@.len() as int),
        ) + ", unknown="@ + debug_list(
            unknown_columns(texts(slots@), columns@, columns@.len() as int),
        ) + ")"@,
{
    let mut missing: Vec<String> = Vec::new();
    let mut unknown: Vec<String> = Vec::new();
    let mut i: usize = 0;
    proof {
        assert(texts(missing@) =~= Seq::empty());
        assert(texts(unknown@) =~= Seq::empty());
    }
    while i < slots.len()
        invariant
            i <= slots@.len(),
            texts(missing@) == missing_slots(texts(slots@), columns@, i as int),
        decreases slots@.len() - i,
    {
        proof {
            assert(texts(slots@)[i as int] == slots@[i as int]@);
        }
        if find_column(columns, &slots[i]).is_none() {
            let ghost held = texts(missing@);
            missing.push(slots[i].clone());
            proof {
                assert(texts(missing@) =~= held.push(slots@[i as int]@));
            }
        }
        i += 1;
    }
    let mut k: usize = 0;
    while k < columns.len()
        invariant
            k <= columns@.len(),
            texts(unknown@) == unknown_columns(texts(slots@), columns@, k as int),
        decreases columns@.len() - k,
    {
        if !list_holds(slots, &columns[k].slot) {
            let ghost held = texts(unknown@);
            unknown.push(columns[k].slot.clone());
            proof {
                assert(texts(unknown@) =~= held.push(columns@[k as int].slot@));
            }
        }
        k += 1;
    }
    let head = concat(
        "binding columns do not match compiled slots (missing=",
        &debug_list_of(&missing),
    );
    concat(&concat(&concat(&head, ", unknown="), &debug_list_of(&unknown)), ")")
}

/// Puts the columns in the order of the slots. Gives the number of records and, slot by slot, the
/// place of its column.
pub fn ordered_columns_for_slots(
    slots: &Vec<String>,
    columns: &Vec<Column>,
    empty_message: &str,
) -> (r: Result<(usize, Vec<usize>), FullBleedError>)
    ensures
        match r {
            Ok((count, order)) => {
                &&& column_fault(texts(slots@), columns@) is None
                &&& count > 0
                &&& order@.len() == slots@.len()
                &&& forall|i: int|
                    0 <= i < slots@.len() ==> {
                        &&& place(columns@, slots@[i]@) == Some((#[trigger] order@[i]) as int)
                        &&& order@[i] < columns@.len()
                        &&& columns@[order@[i] as int].values@.len() == count
                    }
            },
            Err(e) => column_fault(texts(slots@), columns@) matches Some(fault) && tells(
                texts(slots@),
                columns@,
                empty_message@,
                fault,
                e,
            ),
        },
{
    let ghost names = texts(slots@);
    proof {
        assert(names.len() == slots@.len());
    }
    if slots.len() == 0 {
        return Err(FullBleedError::InvalidConfiguration(empty_message.to_owned()));
    }
    if columns.len() != slots.len() {
        return Err(FullBleedError::InvalidConfiguration(mismatch_message(slots, columns)));
    }
    let mut order: Vec<usize> = Vec::new();
    let mut count: usize = 0;
    let mut i: usize = 0;
    while i < slots.len()
        invariant
            i <= slots@.len(),
            slots@.len() > 0,
            names == texts(slots@),
            columns@.len() == slots@.len(),
            order@.len() == i,
            column_fault(names, columns@) == fault_from(names, columns@, i as int),
            i > 0 ==> place(columns@, names[0]) is Some && count
                == columns@[place(columns@, names[0])->0].values@.len(),
            forall|k: int|
                0 <= k < i ==> {
                    &&& place(columns@, slots@[k]@) == Some((#[trigger] order@[k]) as int)
                    &&& order@[k] < columns@.len()
                    &&& columns@[order@[k] as int].values@.len() == count
                },
        decreases slots@.len() - i,
    {
        proof {
            assert(names[i as int] == slots@[i as int]@);
            assert(names[0] == slots@[0]@);
        }
        match find_column(columns, &slots[i]) {
            None => {
                return Err(
                    FullBleedError::InvalidConfiguration(
                        concat("missing binding column for slot ", &debug_string(&slots[i])),
                    ),
                );
            },
            Some(k) => {
                let rows: usize = columns[k].values.len();
                if i == 0 {
                    count = rows;
                } else if rows != count {
                    let head = concat(
                        &concat("binding column ", &debug_string(&slots[i])),
                        " has ",
                    );
                    let message = concat(
                        &concat(&concat(&head, &count_text(rows)), " rows; expected "),
                        &count_text(count),
                    );
                    return Err(FullBleedError::InvalidConfiguration(message));
                }
                order.push(k);
            },
        }
        i += 1;
    }
    if count == 0 {
        return Err(FullBleedError::EmptyDocumentSet);
    }
    Ok((count, order))
}

// ---------------------------------------------------------------------------------------------
// Laws
// ---------------------------------------------------------------------------------------------
/// Two opening braces stand at character `i`.
pub open spec fn opens(s: Seq<char>, i: int) -> bool {
    stands_at(s, seq!['{', '{'], i)
}

/// Two closing braces stand at character `i`.
pub open spec fn closes(s: Seq<char>, i: int) -> bool {
    stands_at(s, seq!['}', '}'], i)
}

/// The slot stands in the text as a marker: two braces at character `a`, two closing ones at
/// character `b` and none between them, with the name and white space inside.
pub open spec fn is_marker(s: Seq<char>, slot: SlotView, a: int, b: int) -> bool {
    &&& opens(s, a)
    &&& closes(s, b)
    &&& a + 2 <= b
    &&& forall|k: int| a + 2 <= k < b ==> !#[trigger] closes(s, k)
    &&& slot.start == byte_offset(s, a)
    &&& slot.end == byte_offset(s, b + 2)
    &&& slot.name == trim(s.subrange(a + 2, b))
    &&& is_slot_name(slot.name)
}

/// The slot stands in the text as a marker, from character `from` on.
pub open spec fn is_marked(s: Seq<char>, slot: SlotView, from: int) -> bool {
    exists|a: int, b: int| from <= a && #[trigger] is_marker(s, slot, a, b)
}

/// Every slot of a text stands there as a marker.
pub proof fn slots_are_markers(s: Seq<char>, from: int)
    requires
        0 <= from <= s.len(),
    ensures
        forall|i: int|
            0 <= i < slots_from(s, from).len() ==> is_marked(
                s,
                #[trigger] slots_from(s, from)[i],
                from,
            ),
    decreases s.len() - from,
{
    found_stands(s, seq!['{', '{'], from);
    match find_from(s, seq!['{', '{'], from) {
        None => {},
        Some(a) => {
            found_stands(s, seq!['}', '}'], a + 2);
            match find_from(s, seq!['}', '}'], a + 2) {
                None => {},
                Some(b) => {
                    slots_are_markers(s, b + 2);
                    let name = trim(s.subrange(a + 2, b));
                    let rest = slots_from(s, b + 2);
                    let all = slots_from(s, from);
                    assert forall|i: int| 0 <= i < all.len() implies is_marked(
                        s,
                        #[trigger] all[i],
                        from,
                    ) by {
                        if is_slot_name(name) && i == 0 {
                            assert(is_marker(s, all[0], a, b));
                        } else {
                            let j = if is_slot_name(name) {
                                i - 1
                            } else {
                                i
                            };
                            assert(all[i] == rest[j]);
                            assert(is_marked(s, rest[j], b + 2));
                            let (c, d) = choose|c: int, d: int|
                                b + 2 <= c && #[trigger] is_marker(s, rest[j], c, d);
                            assert(is_marker(s, all[i], c, d));
                        }
                    }
                },
            }
        },
    }
}

/// The next marker of a text is found: where the first braces from some place on are closed, and
/// what stands in them is the name of a slot, that slot is the next one, and the search goes on
/// behind it. Braces around anything else are passed over.
pub proof fn next_marker_is_found(s: Seq<char>, from: int, a: int, b: int)
    requires
        0 <= from <= a,
        a + 2 <= b,
        opens(s, a),
        forall|k: int| from <= k < a ==> !#[trigger] opens(s, k),
        closes(s, b),
        forall|k: int| a + 2 <= k < b ==> !#[trigger] closes(s, k),
    ensures
        is_slot_name(trim(s.subrange(a + 2, b))) ==> slots_from(s, from).len() > 0 && slots_from(
            s,
            from,
        )[0].name == trim(s.subrange(a + 2, b)) && slots_from(s, from)[0].start == byte_offset(s, a)
            && slots_from(s, from).skip(1) == slots_from(s, b + 2),
        !is_slot_name(trim(s.subrange(a + 2, b))) ==> slots_from(s, from) == slots_from(s, b + 2),
{
    found_stands(s, seq!['{', '{'], from);
    found_stands(s, seq!['}', '}'], a + 2);
    assert(opens(s, a) && closes(s, b));
    let x = find_from(s, seq!['{', '{'], from);
    assert(x == Some(a)) by {
        match x {
            Some(k) => {
                assert(opens(s, k));
                if k > a {
                    assert(!stands_at(s, seq!['{', '{'], a));
                }
            },
            None => {
                assert(!stands_at(s, seq!['{', '{'], a));
            },
        }
    }
    let y = find_from(s, seq!['}', '}'], a + 2);
    assert(y == Some(b)) by {
        match y {
            Some(k) => {
                assert(closes(s, k));
                if k > b {
                    assert(!stands_at(s, seq!['}', '}'], b));
                }
            },
            None => {
                assert(!stands_at(s, seq!['}', '}'], b));
            },
        }
    }
    let rest = slots_from(s, b + 2);
    if is_slot_name(trim(s.subrange(a + 2, b))) {
        assert(slots_from(s, from).skip(1) =~= rest);
    }
}

/// Column `k` is the first one that fills the slot.
pub open spec fn is_column_of(columns: Seq<Column>, slot: Seq<char>, k: int) -> bool {
    &&& 0 <= k < columns.len()
    &&& columns[k].slot@ == slot
    &&& forall|j: int| 0 <= j < k ==> (#[trigger] columns[j]).slot@ != slot
}

pub(crate) proof fn column_is_first(columns: Seq<Column>, n: int, slot: Seq<char>)
    requires
        0 <= n <= columns.len(),
    ensures
        match column_of(columns, n, slot) {
            Some(k) => k < n && is_column_of(columns, slot, k),
            None => forall|j: int| 0 <= j < n ==> (#[trigger] columns[j]).slot@ != slot,
        },
    decreases n,
{
    if n > 0 {
        column_is_first(columns, n - 1, slot);
    }
}

proof fn no_fault_from(slots: Seq<Seq<char>>, columns: Seq<Column>, n: int)
    requires
        0 <= n <= slots.len(),
        slots.len() > 0,
    ensures
        fault_from(slots, columns, n) is None <==> {
            &&& forall|i: int|
                n <= i < slots.len() ==> place(columns, #[trigger] slots[i]) is Some
                    && columns[place(columns, slots[i])->0].values@.len() == columns[place(
                    columns,
                    slots[0],
                )->0].values@.len()
            &&& columns[place(columns, slots[0])->0].values@.len() > 0
        },
    decreases slots.len() - n,
{
    if n < slots.len() {
        no_fault_from(slots, columns, n + 1);
        if fault_from(slots, columns, n) is None {
            assert forall|i: int| n <= i < slots.len() implies place(
                columns,
                #[trigger] slots[i],
            ) is Some && columns[place(columns, slots[i])->0].values@.len() == columns[place(
                columns,
                slots[0],
            )->0].values@.len() by {
                if i > n {
                    assert(n + 1 <= i);
                }
            }
        } else if place(columns, slots[n]) is Some && columns[place(columns, slots[n])->0].values@.len()
            == columns[place(columns, slots[0])->0].values@.len() {
            assert(fault_from(slots, columns, n + 1) is Some);
        } else {
            assert(slots[n] == slots[n]);
        }
    }
}

/// Every slot has a column, and each of these holds `count` records.
pub open spec fn have_columns(slots: Seq<Seq<char>>, columns: Seq<Column>, count: nat) -> bool {
    forall|i: int| 0 <= i < slots.len() ==> is_filled(columns, #[trigger] slots[i], count)
}

/// The first column of the slot holds `count` records.
pub open spec fn is_filled(columns: Seq<Column>, slot: Seq<char>, count: nat) -> bool {
    exists|k: int| #[trigger] is_column_of(columns, slot, k) && columns[k].values@.len() == count
}

/// Columns fill the slots if and only if there is a slot, there are as many columns as slots, every
/// slot has a column, and all these columns hold the same number of records, at least one.
pub proof fn columns_fill_slots(slots: Seq<Seq<char>>, columns: Seq<Column>)
    ensures
        column_fault(slots, columns) is None <==> {
            &&& slots.len() > 0
            &&& columns.len() == slots.len()
            &&& exists|count: nat| count > 0 && #[trigger] have_columns(slots, columns, count)
        },
{
    if slots.len() > 0 {
        no_fault_from(slots, columns, 0);
        assert forall|i: int, k: int|
            0 <= i < slots.len() implies #[trigger] is_column_of(columns, slots[i], k) == (place(
            columns,
            slots[i],
        ) == Some(k)) by {
            column_is_first(columns, columns.len() as int, slots[i]);
            match place(columns, slots[i]) {
                Some(j) => {
                    if is_column_of(columns, slots[i], k) {
                        if k < j {
                            assert(columns[k].slot@ != slots[i]);
                        } else if j < k {
                            assert(columns[j].slot@ != slots[i]);
                        }
                    }
                },
                None => {
                    if is_column_of(columns, slots[i], k) {
                        assert(columns[k].slot@ != slots[i]);
                    }
                },
            }
        }
        if column_fault(slots, columns) is None {
            let count = columns[place(columns, slots[0])->0].values@.len();
            assert forall|i: int| 0 <= i < slots.len() implies is_filled(
                columns,
                #[trigger] slots[i],
                count,
            ) by {
                let k = place(columns, slots[i])->0;
                assert(is_column_of(columns, slots[i], k));
            }
            assert(have_columns(slots, columns, count));
        }
        if columns.len() == slots.len() && exists|count: nat|
            count > 0 && #[trigger] have_columns(slots, columns, count) {
            let count = choose|count: nat|
                count > 0 && #[trigger] have_columns(slots, columns, count);
            assert forall|i: int| 0 <= i < slots.len() implies place(
                columns,
                #[trigger] slots[i],
            ) is Some && columns[place(columns, slots[i])->0].values@.len() == count by {
                assert(is_filled(columns, slots[i], count));
                let k = choose|k: int| #[trigger]
                    is_column_of(columns, slots[i], k) && columns[k].values@.len() == count;
                assert(is_column_of(columns, slots[i], k));
            }
            assert(place(columns, slots[0]) is Some);
        }
    }
}

} // verus!
