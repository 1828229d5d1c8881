use crate::cursor::{string_at, u32_varint_at, ByteCursor, CursorExt, ReadError};
use crate::layout::{layout_at, lemma_layout_len, read_layout, text_item, text_of, Slot};
use vstd::prelude::*;

verus! {

broadcast use {vstd::std_specs::vec::group_vec_axioms, vstd::seq::group_seq_axioms};

/// The client's startup configuration (its `ClientConfig.bytes`).
#[derive(Debug)]
pub struct ClientStartupConfig {
    pub channel_name: String,
    pub bundle_identifier: String,
    pub product_name: String,
    pub script_defines: String,
    pub global_dispatch_url_list: Vec<String>,
}

/// What precedes the list of dispatch URLs: four strings, then three bytes
/// whose meaning is not known.
pub open spec fn client_config_layout() -> Seq<Slot> {
    seq![Slot::Text, Slot::Text, Slot::Text, Slot::Text, Slot::Raw(3)]
}

/// Up to `count` strings read one after the other from `p`, stopping at the
/// first that cannot be read.
pub open spec fn strings_from(data: Seq<u8>, p: int, count: nat) -> Seq<Seq<char>>
    decreases count,
{
    if count == 0 {
        Seq::empty()
    } else {
        match string_at(data, p) {
            Some((t, e)) => seq![t] + strings_from(data, e, (count - 1) as nat),
            None => Seq::empty(),
        }
    }
}

/// The texts of a sequence of strings.
pub open spec fn texts_of(v: Seq<String>) -> Seq<Seq<char>> {
    v.map_values(|s: String| s@)
}

impl ClientStartupConfig {
    /// Reads the configuration from the bytes of the file. The list of
    /// dispatch URLs holds the strings that follow its count, up to the
    /// count, and stops at the first that cannot be read.
    pub fn try_from(value: Vec<u8>) -> (r: Result<Self, ReadError>)
        ensures
            match layout_at(value@, 0, client_config_layout()) {
                Some((items, p)) => match u32_varint_at(value@, p) {
                    Some((count, q)) => r is Ok && {
                        let c = r->Ok_0;
                        &&& c.channel_name@ == text_of(items[0])
                        &&& c.bundle_identifier@ == text_of(items[1])
                        &&& c.product_name@ == text_of(items[2])
                        &&& c.script_defines@ == text_of(items[3])
                        &&& texts_of(c.global_dispatch_url_list@) == strings_from(
                            value@,
                            q,
                            count as nat,
                        )
                    },
                    None => r is Err,
                },
                None => r is Err,
            },
    {
        let mut layout: Vec<Slot> = Vec::new();
        layout.push(Slot::Text);
        layout.push(Slot::Text);
        layout.push(Slot::Text);
        layout.push(Slot::Text);
        layout.push(Slot::Raw(3));
        assert(layout@ =~= client_config_layout());
        let ghost data = value@;
        let mut reader = ByteCursor::new(value);
        let items = match read_layout(&mut reader, &layout) {
            Ok(items) => items,
            Err(err) => {
                return Err(err);
            },
        };
        proof {
            lemma_layout_len(data, 0, layout@);
        }
        let count = match reader.read_u32_varint() {
            Ok(n) => n,
            Err(err) => {
                return Err(err);
            },
        };
        let ghost q = reader.position();
        let mut urls: Vec<String> = Vec::new();
        let mut k: u32 = 0;
        assert(texts_of(urls@) + strings_from(data, q, count as nat) =~= strings_from(
            data,
            q,
            count as nat,
        ));
        while k < count
            invariant_except_break
                strings_from(data, q, count as nat) == texts_of(urls@) + strings_from(
                    data,
                    reader.position(),
                    (count - k) as nat,
                ),
            invariant
                reader.buffer() == data,
                k <= count,
            ensures
                strings_from(data, q, count as nat) == texts_of(urls@),
            decreases count - k,
        {
            let ghost before = urls@;
            match reader.read_string() {
                Ok(s) => {
                    urls.push(s);
                    proof {
                        assert(texts_of(urls@) =~= texts_of(before).push(s@));
                        assert(texts_of(before) + (seq![s@] + strings_from(
                            data,
                            reader.position(),
                            (count - k - 1) as nat,
                        )) =~= texts_of(urls@) + strings_from(
                            data,
                            reader.position(),
                            (count - k - 1) as nat,
                        ));
                    }
                },
                Err(_) => {
                    proof {
                        assert(texts_of(urls@) + Seq::empty() =~= texts_of(urls@));
                    }
                    break;
                },
            }
            k = k + 1;
            proof {
                if k == count {
                    assert(texts_of(urls@) + Seq::empty() =~= texts_of(urls@));
                }
            }
        }
        Ok(ClientStartupConfig {
            channel_name: text_item(&items, 0),
            bundle_identifier: text_item(&items, 1),
            product_name: text_item(&items, 2),
            script_defines: text_item(&items, 3),
            global_dispatch_url_list: urls,
        })
    }
}

} // verus!
