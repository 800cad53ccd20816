//! How a node's label is split into the lines that the node shows.

use vstd::prelude::*;
use vstd::string::StringSliceAdditionalSpecFns;
use vstd::utf8::*;

use crate::dot_layout::lemma_ascii_neighbour_is_char_boundary;
use crate::std_text::{lemma_encode_utf8_concat, lemma_encode_utf8_single};

verus! {

/// The position of the first line feed in `b` at or after `i`, if any.
pub open spec fn first_line_feed_from(b: Seq<u8>, i: int) -> Option<int>
    decreases b.len() - i,
{
    if i < 0 || i >= b.len() {
        None
    } else if b[i] == 0x0a {
        Some(i)
    } else {
        first_line_feed_from(b, i + 1)
    }
}

/// What a node shows.
#[derive(Debug, PartialEq, Eq)]
pub enum NodeLabelLines {
    /// The label is empty: the node shows its id.
    NodeId,
    /// A resource type above a resource name.
    TypeAndName { type_line: String, name_line: String },
    /// The whole label on one line.
    Single(String),
}

/// The lines of `label`: nothing when it is empty; the text before and after its first line
/// feed when the text after is not empty; otherwise the whole label.
pub open spec fn spec_node_label_lines(label: Seq<char>) -> Option<(Seq<char>, Seq<char>)> {
    let b = encode_utf8(label);
    match first_line_feed_from(b, 0) {
        Some(k) => if k + 1 < b.len() {
            Some((decode_utf8(b.subrange(0, k)), decode_utf8(b.subrange(k + 1, b.len() as int))))
        } else {
            None
        },
        None => None,
    }
}

proof fn lemma_first_line_feed_from(b: Seq<u8>, i: int)
    requires
        0 <= i <= b.len(),
    ensures
        first_line_feed_from(b, i) matches Some(k) ==> i <= k < b.len() && b[k] == 0x0a && forall|
            j: int,
        | i <= j < k ==> b[j] != 0x0a,
        first_line_feed_from(b, i) is None ==> forall|j: int| i <= j < b.len() ==> b[j] != 0x0a,
    decreases b.len() - i,
{
    if i < b.len() && b[i] != 0x0a {
        lemma_first_line_feed_from(b, i + 1);
    }
}

/// Splits a node label (`type\nname`) into the lines that the node shows.
pub fn node_label_lines(label: &str) -> (r: NodeLabelLines)
    ensures
        label@.len() == 0 ==> r == NodeLabelLines::NodeId,
        label@.len() > 0 ==> match spec_node_label_lines(label@) {
            Some((t, n)) => r matches NodeLabelLines::TypeAndName { type_line, name_line }
                && type_line@ == t && name_line@ == n,
            None => r matches NodeLabelLines::Single(s) && s@ == label@,
        },
{
    let bytes = label.as_bytes();
    let ghost b = bytes@;
    if bytes.len() == 0 {
        return NodeLabelLines::NodeId;
    }
    proof {
        encode_utf8_valid_utf8(label@);
        lemma_first_line_feed_from(b, 0);
    }
    let mut k: usize = 0;
    while k < bytes.len() && bytes[k] != 0x0a
        invariant
            bytes@ == b,
            k <= b.len(),
            first_line_feed_from(b, k as int) == first_line_feed_from(b, 0),
        decreases b.len() - k,
    {
        k = k + 1;
    }
    if k < bytes.len() && bytes.len() - k > 1 {
        proof {
            is_char_boundary_iff_not_is_continuation_byte(b, k as int);
        }
        let (type_line, rest) = label.split_at(k);
        let ghost r = rest.spec_bytes();
        proof {
            encode_utf8_valid_utf8(rest@);
            assert(r[0] == 0x0a);
            lemma_ascii_neighbour_is_char_boundary(r, 1);
        }
        let ghost t1 = b.subrange(k + 1, b.len() as int);
        let (_line_feed, name_line) = rest.split_at(1);
        proof {
            encode_utf8_decode_utf8(type_line@);
            encode_utf8_decode_utf8(name_line@);
            assert(name_line.spec_bytes() =~= t1);
        }
        return NodeLabelLines::TypeAndName {
            type_line: type_line.to_owned(),
            name_line: name_line.to_owned(),
        };
    }
    NodeLabelLines::Single(label.to_owned())
}

proof fn lemma_no_line_feed_char(t: Seq<char>)
    requires
        forall|j: int| 0 <= j < encode_utf8(t).len() ==> encode_utf8(t)[j] != 0x0a,
    ensures
        !t.contains('\n'),
{
    if t.contains('\n') {
        let i = choose|i: int| 0 <= i < t.len() && t[i] == '\n';
        let front = t.take(i);
        let back = t.skip(i + 1);
        assert(t =~= front + seq!['\n'] + back);
        lemma_encode_utf8_concat(front, seq!['\n']);
        lemma_encode_utf8_concat(front + seq!['\n'], back);
        lemma_encode_utf8_single('\n');
        assert('\n' as u32 == 10u32);
        assert(10u32 & 0x7f == 0x0a) by (bit_vector);
        let j = encode_utf8(front).len() as int;
        assert(encode_utf8(t)[j] == 0x0a);
    }
}

/// A two-line label is its type line, a line feed, and its name line: the type line holds
/// no line feed and the name line is not empty.
pub proof fn lemma_two_line_label_rejoins(label: Seq<char>)
    requires
        spec_node_label_lines(label) is Some,
    ensures
        ({
            let (t, n) = spec_node_label_lines(label)->Some_0;
            &&& label == t + seq!['\n'] + n
            &&& !t.contains('\n')
            &&& n.len() > 0
        }),
{
    let b = encode_utf8(label);
    encode_utf8_valid_utf8(label);
    encode_utf8_decode_utf8(label);
    lemma_first_line_feed_from(b, 0);
    let k = first_line_feed_from(b, 0)->Some_0;
    let tb = b.subrange(0, k);
    let nb = b.subrange(k + 1, b.len() as int);
    lemma_ascii_neighbour_is_char_boundary(b, k);
    lemma_ascii_neighbour_is_char_boundary(b, k + 1);
    valid_utf8_split(b, k);
    valid_utf8_split(b, k + 1);
    let t = decode_utf8(tb);
    let n = decode_utf8(nb);
    decode_utf8_encode_utf8(tb);
    decode_utf8_encode_utf8(nb);
    lemma_encode_utf8_single('\n');
    assert(encode_utf8(seq!['\n']) =~= seq![0x0au8]) by {
        assert('\n' as u32 == 10u32);
        assert(10u32 & 0x7f == 0x0a) by (bit_vector);
    }
    lemma_encode_utf8_concat(t, seq!['\n']);
    lemma_encode_utf8_concat(t + seq!['\n'], n);
    assert(encode_utf8(t + seq!['\n'] + n) =~= b);
    encode_utf8_decode_utf8(t + seq!['\n'] + n);
    assert(n.len() > 0) by {
        if n.len() == 0 {
            assert(encode_utf8(n) =~= Seq::<u8>::empty());
        }
    }
    assert forall|j: int| 0 <= j < tb.len() implies tb[j] != 0x0a by {
        assert(tb[j] == b[j]);
    }
    lemma_no_line_feed_char(t);
}

/// A character other than the line feed encodes to bytes none of which is a line feed.
proof fn lemma_scalar_without_line_feed_byte(c: char)
    requires
        c != '\n',
    ensures
        forall|j: int|
            0 <= j < encode_scalar(c as u32).len() ==> #[trigger] encode_scalar(c as u32)[j]
                != 0x0a,
{
    let s = c as u32;
    char_is_scalar(c);
    assert(s != 10u32) by {
        if s == 10u32 {
            assert('\n' as u32 == 10u32);
            char_u32_cast(c, 10u32);
            char_u32_cast('\n', 10u32);
        }
    }
    if has_width_1_encoding(s) {
        assert((s & 0x7f) as u8 != 0x0au8) by (bit_vector)
            requires
                s <= 0x7f,
                s != 10u32,
        ;
    } else {
        assert(forall|y: u8| #[trigger] (0x80u8 | y) != 0x0au8) by (bit_vector);
        assert(forall|y: u8| #[trigger] (0xC0u8 | y) != 0x0au8) by (bit_vector);
        assert(forall|y: u8| #[trigger] (0xE0u8 | y) != 0x0au8) by (bit_vector);
        assert(forall|y: u8| #[trigger] (0xF0u8 | y) != 0x0au8) by (bit_vector);
    }
}

/// Text without a line feed encodes to bytes without a line feed.
proof fn lemma_encode_without_line_feed(t: Seq<char>)
    requires
        !t.contains('\n'),
    ensures
        forall|j: int| 0 <= j < encode_utf8(t).len() ==> encode_utf8(t)[j] != 0x0a,
    decreases t.len(),
{
    if t.len() > 0 {
        assert(t[0] != '\n') by {
            if t[0] == '\n' {
                assert(t.contains(t[0]));
            }
        }
        let rest = t.drop_first();
        assert(!rest.contains('\n')) by {
            if rest.contains('\n') {
                let i = choose|i: int| 0 <= i < rest.len() && rest[i] == '\n';
                assert(t[i + 1] == '\n');
                assert(t.contains(t[i + 1]));
            }
        }
        lemma_scalar_without_line_feed_byte(t[0]);
        lemma_encode_without_line_feed(rest);
        let e0 = encode_scalar(t[0] as u32);
        assert(encode_utf8(t) == e0 + encode_utf8(rest));
        assert forall|j: int| 0 <= j < encode_utf8(t).len() implies encode_utf8(t)[j] != 0x0a by {
            if j < e0.len() {
                assert(encode_utf8(t)[j] == e0[j]);
            } else {
                assert(encode_utf8(t)[j] == encode_utf8(rest)[j - e0.len()]);
            }
        }
    }
}

proof fn lemma_first_line_feed_at(b: Seq<u8>, i: int, k: int)
    requires
        0 <= i <= k < b.len(),
        b[k] == 0x0a,
        forall|j: int| i <= j < k ==> b[j] != 0x0a,
    ensures
        first_line_feed_from(b, i) == Some(k),
    decreases k - i,
{
    if i < k {
        lemma_first_line_feed_at(b, i + 1, k);
    }
}

/// A label splits at its first line feed, however long the type line before it is: when
/// text follows that line feed the node shows the text before it above the text after it;
/// when the line feed ends the label the node shows the label on one line.
pub proof fn lemma_label_splits_at_first_line_feed(label: Seq<char>, i: int)
    requires
        0 <= i < label.len(),
        label[i] == '\n',
        forall|j: int| 0 <= j < i ==> label[j] != '\n',
    ensures
        i + 1 < label.len() ==> spec_node_label_lines(label) == Some(
            (label.take(i), label.skip(i + 1)),
        ),
        i + 1 == label.len() ==> spec_node_label_lines(label) is None,
{
    let t = label.take(i);
    let n = label.skip(i + 1);
    assert(label =~= t + seq!['\n'] + n);
    assert(!t.contains('\n')) by {
        if t.contains('\n') {
            let j = choose|j: int| 0 <= j < t.len() && t[j] == '\n';
            assert(label[j] == '\n');
        }
    }
    lemma_encode_without_line_feed(t);
    lemma_encode_utf8_concat(t, seq!['\n']);
    lemma_encode_utf8_concat(t + seq!['\n'], n);
    lemma_encode_utf8_single('\n');
    assert(encode_utf8(seq!['\n']) =~= seq![0x0au8]) by {
        assert('\n' as u32 == 10u32);
        assert(10u32 & 0x7f == 0x0a) by (bit_vector);
    }
    let et = encode_utf8(t);
    let en = encode_utf8(n);
    let b = encode_utf8(label);
    assert(b =~= et + seq![0x0au8] + en);
    let k = et.len() as int;
    assert forall|j: int| 0 <= j < k implies b[j] != 0x0a by {
        assert(b[j] == et[j]);
    }
    lemma_first_line_feed_at(b, 0, k);
    assert(b.subrange(0, k) =~= et);
    assert(b.subrange(k + 1, b.len() as int) =~= en);
    encode_utf8_decode_utf8(t);
    encode_utf8_decode_utf8(n);
    if n.len() > 0 {
        assert(en.len() > 0) by {
            char_is_scalar(n[0]);
            assert(en == encode_scalar(n[0] as u32) + encode_utf8(n.drop_first()));
        }
    } else {
        assert(en =~= Seq::<u8>::empty());
    }
}

/// A label without a line feed shows on one line.
pub proof fn lemma_label_without_line_feed_is_single(label: Seq<char>)
    requires
        !label.contains('\n'),
    ensures
        spec_node_label_lines(label) is None,
{
    let b = encode_utf8(label);
    lemma_encode_without_line_feed(label);
    lemma_first_line_feed_from(b, 0);
}

proof fn lemma_first_line_feed_char(s: Seq<char>, p: int) -> (i: int)
    requires
        0 <= p < s.len(),
        s[p] == '\n',
    ensures
        0 <= i <= p,
        s[i] == '\n',
        forall|j: int| 0 <= j < i ==> s[j] != '\n',
    decreases p,
{
    if exists|j: int| 0 <= j < p && s[j] == '\n' {
        let q = choose|j: int| 0 <= j < p && s[j] == '\n';
        lemma_first_line_feed_char(s, q)
    } else {
        p
    }
}

/// A label shows as two lines exactly when it holds a line feed with text after it.
pub proof fn lemma_two_lines_exactly_when_text_follows_a_line_feed(label: Seq<char>)
    ensures
        spec_node_label_lines(label) is Some <==> exists|p: int|
            0 <= p && p + 1 < label.len() && #[trigger] label[p] == '\n',
{
    if spec_node_label_lines(label) is Some {
        lemma_two_line_label_rejoins(label);
        let (t, n) = spec_node_label_lines(label)->Some_0;
        let p = t.len() as int;
        assert(label[p] == '\n');
    }
    if exists|p: int| 0 <= p && p + 1 < label.len() && #[trigger] label[p] == '\n' {
        let p = choose|p: int| 0 <= p && p + 1 < label.len() && #[trigger] label[p] == '\n';
        let i = lemma_first_line_feed_char(label, p);
        lemma_label_splits_at_first_line_feed(label, i);
    }
}

} // verus!
