use crate::cursor::{string_at, u32_be_at, ByteCursor, CursorExt, ReadError};
use vstd::prelude::*;

verus! {

broadcast use {vstd::std_specs::vec::group_vec_axioms, vstd::seq::group_seq_axioms};

/// The kind of one value in a fixed binary layout.
#[derive(Debug, Clone, Copy, PartialEq, Eq, Structural)]
pub enum Slot {
    /// A string: a flag byte, a varint length, then the text.
    Text,
    /// A big-endian 32-bit integer.
    Word,
    /// One byte read as a flag.
    Flag,
    /// A run of bytes of the given length.
    Raw(usize),
}

/// One value read from a binary layout.
#[derive(Debug)]
pub enum Item {
    Text(String),
    Word(u32),
    Flag(bool),
    Raw(Vec<u8>),
}

/// The mathematical value of an `Item`.
pub enum ItemModel {
    Text(Seq<char>),
    Word(u32),
    Flag(bool),
    Raw(Seq<u8>),
}

/// The mathematical value of an item.
pub open spec fn item_view(i: Item) -> ItemModel {
    match i {
        Item::Text(s) => ItemModel::Text(s@),
        Item::Word(w) => ItemModel::Word(w),
        Item::Flag(b) => ItemModel::Flag(b),
        Item::Raw(v) => ItemModel::Raw(v@),
    }
}

/// The mathematical values of items, in order.
pub open spec fn items_view(items: Seq<Item>) -> Seq<ItemModel> {
    items.map_values(|i: Item| item_view(i))
}

/// The value of kind `slot` at `p` and the position after it.
pub open spec fn slot_at(data: Seq<u8>, p: int, slot: Slot) -> Option<(ItemModel, int)> {
    match slot {
        Slot::Text => match string_at(data, p) {
            Some((t, e)) => Some((ItemModel::Text(t), e)),
            None => None,
        },
        Slot::Word => if 0 <= p && p + 4 <= data.len() {
            Some((ItemModel::Word(u32_be_at(data, p)), p + 4))
        } else {
            None
        },
        Slot::Flag => if 0 <= p < data.len() {
            Some((ItemModel::Flag(data[p] != 0), p + 1))
        } else {
            None
        },
        Slot::Raw(n) => if 0 <= p && p + n <= data.len() {
            Some((ItemModel::Raw(data.subrange(p, p + n)), p + n))
        } else {
            None
        },
    }
}

/// The values of `layout` read one after the other from `p`, and the
/// position after the last; `None` where the data ends before it.
pub open spec fn layout_at(data: Seq<u8>, p: int, layout: Seq<Slot>) -> Option<(Seq<ItemModel>, int)>
    decreases layout.len(),
{
    if layout.len() == 0 {
        Some((Seq::empty(), p))
    } else {
        match slot_at(data, p, layout[0]) {
            Some((item, e)) => match layout_at(data, e, layout.drop_first()) {
                Some((rest, end)) => Some((seq![item] + rest, end)),
                None => None,
            },
            None => None,
        }
    }
}

/// A layout read whole gives one value per slot.
pub proof fn lemma_layout_len(data: Seq<u8>, p: int, layout: Seq<Slot>)
    ensures
        layout_at(data, p, layout) matches Some((items, _)) ==> items.len() == layout.len(),
    decreases layout.len(),
{
    if layout.len() > 0 {
        if let Some((_, e)) = slot_at(data, p, layout[0]) {
            lemma_layout_len(data, e, layout.drop_first());
        }
    }
}

/// The text of a text item; empty for any other.
pub open spec fn text_of(i: ItemModel) -> Seq<char> {
    match i {
        ItemModel::Text(t) => t,
        _ => Seq::empty(),
    }
}

/// The integer of an integer item; zero for any other.
pub open spec fn word_of(i: ItemModel) -> u32 {
    match i {
        ItemModel::Word(w) => w,
        _ => 0,
    }
}

/// The flag of a flag item; false for any other.
pub open spec fn flag_of(i: ItemModel) -> bool {
    match i {
        ItemModel::Flag(b) => b,
        _ => false,
    }
}

/// The bytes of a raw item; empty for any other.
pub open spec fn raw_of(i: ItemModel) -> Seq<u8> {
    match i {
        ItemModel::Raw(b) => b,
        _ => Seq::empty(),
    }
}

/// Reads one value of kind `slot`.
fn read_slot(cursor: &mut ByteCursor, slot: Slot) -> (r: Result<Item, ReadError>)
    ensures
        final(cursor).buffer() == old(cursor).buffer(),
        match slot_at(old(cursor).buffer(), old(cursor).position(), slot) {
            Some((item, e)) => r is Ok && item_view(r->Ok_0) == item && final(cursor).position()
                == e,
            None => r is Err,
        },
{
    match slot {
        Slot::Text => match cursor.read_string() {
            Ok(s) => Ok(Item::Text(s)),
            Err(err) => Err(err),
        },
        Slot::Word => match cursor.read_u32_be() {
            Ok(w) => Ok(Item::Word(w)),
            Err(err) => Err(err),
        },
        Slot::Flag => match cursor.read_bool() {
            Ok(b) => Ok(Item::Flag(b)),
            Err(err) => Err(err),
        },
        Slot::Raw(n) => match cursor.read_bytes(n) {
            Ok(v) => Ok(Item::Raw(v)),
            Err(err) => Err(err),
        },
    }
}

/// Reads the values of `layout` one after the other.
pub fn read_layout(cursor: &mut ByteCursor, layout: &Vec<Slot>) -> (r: Result<Vec<Item>, ReadError>)
    ensures
        final(cursor).buffer() == old(cursor).buffer(),
        match layout_at(old(cursor).buffer(), old(cursor).position(), layout@) {
            Some((items, end)) => r is Ok && items_view(r->Ok_0@) == items
                && final(cursor).position() == end,
            None => r is Err,
        },
{
    let ghost data = cursor.buffer();
    let ghost start = cursor.position();
    let mut items: Vec<Item> = Vec::new();
    let mut k: usize = 0;
    proof {
        assert(layout@.skip(0) =~= layout@);
        assert(items_view(items@) =~= Seq::<ItemModel>::empty());
        match layout_at(data, start, layout@) {
            Some((all, _)) => {
                assert(Seq::<ItemModel>::empty() + all =~= all);
            },
            None => {},
        }
    }
    while k < layout.len()
        invariant
            k <= layout@.len(),
            cursor.buffer() == data,
            data == old(cursor).buffer(),
            start == old(cursor).position(),
            layout_at(data, start, layout@) == match layout_at(
                data,
                cursor.position(),
                layout@.skip(k as int),
            ) {
                Some((rest, end)) => Some((items_view(items@) + rest, end)),
                None => None::<(Seq<ItemModel>, int)>,
            },
        decreases layout@.len() - k,
    {
        let ghost pos = cursor.position();
        let ghost tail = layout@.skip(k as int);
        assert(tail.drop_first() =~= layout@.skip(k + 1));
        assert(tail[0] == layout@[k as int]);
        let item = match read_slot(cursor, layout[k]) {
            Ok(i) => i,
            Err(err) => {
                return Err(err);
            },
        };
        let ghost before = items@;
        items.push(item);
        proof {
            assert(items_view(items@) =~= items_view(before).push(item_view(item)));
            match layout_at(data, cursor.position(), layout@.skip(k + 1)) {
                Some((rest, _)) => {
                    assert(items_view(before) + (seq![item_view(item)] + rest) =~= items_view(
                        items@,
                    ) + rest);
                },
                None => {},
            }
        }
        k = k + 1;
    }
    proof {
        assert(layout@.skip(k as int).len() == 0);
        assert(items_view(items@) + Seq::empty() =~= items_view(items@));
    }
    Ok(items)
}

/// The text of item `k`; empty where it is of another kind.
pub fn text_item(items: &Vec<Item>, k: usize) -> (r: String)
    requires
        k < items@.len(),
    ensures
        r@ == text_of(item_view(items@[k as int])),
{
    match &items[k] {
        Item::Text(s) => s.clone(),
        _ => String::new(),
    }
}

/// The integer of item `k`; zero where it is of another kind.
pub fn word_item(items: &Vec<Item>, k: usize) -> (r: u32)
    requires
        k < items@.len(),
    ensures
        r == word_of(item_view(items@[k as int])),
{
    match &items[k] {
        Item::Word(w) => *w,
        _ => 0,
    }
}

/// The flag of item `k`; false where it is of another kind.
pub fn flag_item(items: &Vec<Item>, k: usize) -> (r: bool)
    requires
        k < items@.len(),
    ensures
        r == flag_of(item_view(items@[k as int])),
{
    match &items[k] {
        Item::Flag(b) => *b,
        _ => false,
    }
}

/// The bytes of item `k`; empty where it is of another kind.
pub fn raw_item(items: &Vec<Item>, k: usize) -> (r: Vec<u8>)
    requires
        k < items@.len(),
    ensures
        r@ == raw_of(item_view(items@[k as int])),
{
    match &items[k] {
        Item::Raw(v) => v.clone(),
        _ => Vec::new(),
    }
}

} // verus!
