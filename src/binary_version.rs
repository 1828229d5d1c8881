use crate::cursor::{ByteCursor, ReadError};
use crate::layout::{
    flag_item, flag_of, items_view, layout_at, lemma_layout_len, raw_item, raw_of, read_layout,
    text_item, text_of, word_item, word_of, Slot,
};
use vstd::prelude::*;
use vstd::string::StringExecFns;

verus! {

broadcast use {vstd::std_specs::vec::group_vec_axioms, vstd::seq::group_seq_axioms};

/// The build and version record of the client (its `BinaryVersion.bytes`).
#[derive(Debug)]
pub struct BinaryVersionData {
    pub branch: String,
    pub revision: u32,
    pub major_version: u32,
    pub minor_version: u32,
    pub patch_version: u32,
    /// Fifteen 32-bit words whose meaning is not known.
    pub reserved: Vec<u8>,
    pub time: String,
    pub pak_type: String,
    pub pak_type_detail: String,
    pub start_asset: String,
    pub start_design_data: String,
    pub dispatch_seed: String,
    pub version_string: String,
    pub version_hash: String,
    pub game_core_version: u32,
    pub is_enable_exclude_asset: bool,
    pub sdk_ps_client_id: String,
}

/// The values of the record, in the order they are stored.
pub open spec fn binary_version_layout() -> Seq<Slot> {
    seq![
        Slot::Text,
        Slot::Word,
        Slot::Word,
        Slot::Word,
        Slot::Word,
        Slot::Raw(60),
        Slot::Text,
        Slot::Text,
        Slot::Text,
        Slot::Text,
        Slot::Text,
        Slot::Text,
        Slot::Text,
        Slot::Text,
        Slot::Word,
        Slot::Flag,
        Slot::Text,
    ]
}

/// A character allowed in a version segment: an ASCII letter or digit, or `.`.
pub open spec fn version_char(c: char) -> bool {
    ('0' <= c <= '9') || ('a' <= c <= 'z') || ('A' <= c <= 'Z') || c == '.'
}

/// How many times `c` occurs in `s`.
pub open spec fn count_char(s: Seq<char>, c: char) -> nat
    decreases s.len(),
{
    if s.len() == 0 {
        0
    } else {
        count_char(s.drop_last(), c) + if s.last() == c {
            1nat
        } else {
            0nat
        }
    }
}

/// A segment that reads as a version: letters, digits and dots only, with
/// exactly two dots.
pub open spec fn is_version_segment(s: Seq<char>) -> bool {
    (forall|k: int| 0 <= k < s.len() ==> version_char(#[trigger] s[k])) && count_char(s, '.')
        == 2
}

/// The position of the first `-` at or after `i`, or the end of `s`.
pub open spec fn segment_end(s: Seq<char>, i: int) -> int
    decreases s.len() - i,
{
    if i < 0 || i >= s.len() {
        s.len() as int
    } else if s[i] == '-' {
        i
    } else {
        segment_end(s, i + 1)
    }
}

/// The first of the `-`-separated segments of `s`, from the one that starts
/// at `i` on, that reads as a version.
pub open spec fn version_segment_from(s: Seq<char>, i: int) -> Option<Seq<char>>
    decreases s.len() - i,
{
    if 0 <= i <= s.len() {
        let e = segment_end(s, i);
        if i <= e && is_version_segment(s.subrange(i, e)) {
            Some(s.subrange(i, e))
        } else if i <= e < s.len() {
            version_segment_from(s, e + 1)
        } else {
            None
        }
    } else {
        None
    }
}

/// `segment_end` lies between `i` and the end, at a `-` unless at the end.
proof fn lemma_segment_end_bounds(s: Seq<char>, i: int)
    requires
        0 <= i <= s.len(),
    ensures
        i <= segment_end(s, i) <= s.len(),
        segment_end(s, i) < s.len() ==> s[segment_end(s, i)] == '-',
        forall|k: int| i <= k < segment_end(s, i) ==> s[k] != '-',
    decreases s.len() - i,
{
    if i < s.len() && s[i] != '-' {
        lemma_segment_end_bounds(s, i + 1);
    }
}

impl BinaryVersionData {
    /// Reads the record from the bytes of the file.
    pub fn try_from(value: Vec<u8>) -> (r: Result<Self, ReadError>)
        ensures
            match layout_at(value@, 0, binary_version_layout()) {
                Some((items, _)) => r is Ok && {
                    let d = r->Ok_0;
                    &&& d.branch@ == text_of(items[0])
                    &&& d.revision == word_of(items[1])
                    &&& d.major_version == word_of(items[2])
                    &&& d.minor_version == word_of(items[3])
                    &&& d.patch_version == word_of(items[4])
                    &&& d.reserved@ == raw_of(items[5])
                    &&& d.time@ == text_of(items[6])
                    &&& d.pak_type@ == text_of(items[7])
                    &&& d.pak_type_detail@ == text_of(items[8])
                    &&& d.start_asset@ == text_of(items[9])
                    &&& d.start_design_data@ == text_of(items[10])
                    &&& d.dispatch_seed@ == text_of(items[11])
                    &&& d.version_string@ == text_of(items[12])
                    &&& d.version_hash@ == text_of(items[13])
                    &&& d.game_core_version == word_of(items[14])
                    &&& d.is_enable_exclude_asset == flag_of(items[15])
                    &&& d.sdk_ps_client_id@ == text_of(items[16])
                },
                None => r is Err,
            },
    {
        let mut layout: Vec<Slot> = Vec::new();
        layout.push(Slot::Text);
        layout.push(Slot::Word);
        layout.push(Slot::Word);
        layout.push(Slot::Word);
        layout.push(Slot::Word);
        layout.push(Slot::Raw(60));
        layout.push(Slot::Text);
        layout.push(Slot::Text);
        layout.push(Slot::Text);
        layout.push(Slot::Text);
        layout.push(Slot::Text);
        layout.push(Slot::Text);
        layout.push(Slot::Text);
        layout.push(Slot::Text);
        layout.push(Slot::Word);
        layout.push(Slot::Flag);
        layout.push(Slot::Text);
        assert(layout@ =~= binary_version_layout());
        let mut reader = ByteCursor::new(value);
        let items = match read_layout(&mut reader, &layout) {
            Ok(items) => items,
            Err(err) => {
                return Err(err);
            },
        };
        proof {
            lemma_layout_len(value@, 0, layout@);
            assert(items_view(items@).len() == items@.len());
        }
        Ok(BinaryVersionData {
            branch: text_item(&items, 0),
            revision: word_item(&items, 1),
            major_version: word_item(&items, 2),
            minor_version: word_item(&items, 3),
            patch_version: word_item(&items, 4),
            reserved: raw_item(&items, 5),
            time: text_item(&items, 6),
            pak_type: text_item(&items, 7),
            pak_type_detail: text_item(&items, 8),
            start_asset: text_item(&items, 9),
            start_design_data: text_item(&items, 10),
            dispatch_seed: text_item(&items, 11),
            version_string: text_item(&items, 12),
            version_hash: text_item(&items, 13),
            game_core_version: word_item(&items, 14),
            is_enable_exclude_asset: flag_item(&items, 15),
            sdk_ps_client_id: text_item(&items, 16),
        })
    }

    /// The version that the server's package type goes by: the first
    /// `-`-separated segment of `version_string` made only of ASCII letters,
    /// digits and dots, with exactly two dots.
    pub fn get_server_pak_type_version(&self) -> (r: Option<String>)
        ensures
            match version_segment_from(self.version_string@, 0) {
                Some(seg) => r is Some && r->0@ == seg,
                None => r is None,
            },
    {
        let s = self.version_string.as_str();
        let ghost v = s@;
        let n = s.unicode_len();
        let mut i: usize = 0;
        loop
            invariant
                s@ == v,
                v == self.version_string@,
                n == v.len(),
                i <= n,
                version_segment_from(v, 0) == version_segment_from(v, i as int),
            decreases n - i,
        {
            proof {
                lemma_segment_end_bounds(v, i as int);
            }
            let mut e: usize = i;
            while e < n && s.get_char(e) != '-'
                invariant
                    s@ == v,
                    n == v.len(),
                    i <= e <= n,
                    segment_end(v, i as int) == segment_end(v, e as int),
                decreases n - e,
            {
                e = e + 1;
            }
            let mut ok = true;
            let mut dots: usize = 0;
            let mut k: usize = i;
            while k < e
                invariant
                    s@ == v,
                    n == v.len(),
                    i <= k <= e <= n,
                    ok == (forall|j: int| i <= j < k ==> version_char(#[trigger] v[j])),
                    dots == count_char(v.subrange(i as int, k as int), '.'),
                    dots <= k - i,
                decreases e - k,
            {
                let c = s.get_char(k);
                assert(v.subrange(i as int, k + 1).drop_last() =~= v.subrange(i as int, k as int));
                if !(('0' <= c && c <= '9') || ('a' <= c && c <= 'z') || ('A' <= c && c <= 'Z')
                    || c == '.') {
                    ok = false;
                }
                if c == '.' {
                    dots = dots + 1;
                }
                k = k + 1;
            }
            proof {
                assert(segment_end(v, e as int) == e as int);
                let seg = v.subrange(i as int, e as int);
                if ok {
                    assert forall|j: int| 0 <= j < seg.len() implies version_char(
                        #[trigger] seg[j],
                    ) by {
                        assert(seg[j] == v[i + j]);
                    }
                } else {
                    let j = choose|j: int| i <= j < e && !version_char(v[j]);
                    assert(seg[j - i] == v[j]);
                }
                assert(ok && dots == 2 <==> is_version_segment(seg));
            }
            if ok && dots == 2 {
                return Some(String::from_str(s.substring_char(i, e)));
            }
            if e >= n {
                return None;
            }
            i = e + 1;
        }
    }
}

} // verus!
