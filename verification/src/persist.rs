//! The byte image of a store: how integers, tags, strings and lists of
//! entries are laid out, and how they are read back.
//!
//! Every piece is read at a position and gives its value with the position
//! after it. Integers are eight bytes, least significant first; a string is
//! the length of its UTF-8 form and then that form; a list is read item by
//! item, its count given beforehand.

use vstd::prelude::*;
use vstd::slice::*;
use vstd::string::*;
use vstd::utf8::*;
use crate::experiments::{pairs_view, ExtraView};
use crate::storage::{KeyView, Lifetime, Metric, MetricValue, Slot, StorageKey};

verus! {

/// `bytes` holds `piece` from position `pos` on.
pub open spec fn holds_at(bytes: Seq<u8>, pos: int, piece: Seq<u8>) -> bool {
    &&& 0 <= pos
    &&& pos + piece.len() <= bytes.len()
    &&& bytes.subrange(pos, pos + piece.len()) =~= piece
}

/// Where two pieces in a row are held, each of them is held at its place.
pub proof fn lemma_holds_split(bytes: Seq<u8>, pos: int, first: Seq<u8>, second: Seq<u8>)
    requires
        holds_at(bytes, pos, first + second),
    ensures
        holds_at(bytes, pos, first),
        holds_at(bytes, pos + first.len(), second),
{
    let whole = first + second;
    assert forall|i: int| 0 <= i < first.len() implies bytes[pos + i] == first[i] by {
        assert(bytes.subrange(pos, pos + whole.len())[i] == whole[i]);
    }
    assert forall|i: int| 0 <= i < second.len() implies bytes[pos + first.len() + i]
        == second[i] by {
        assert(bytes.subrange(pos, pos + whole.len())[first.len() + i] == whole[first.len() + i]);
    }
}

/// The `width` low bytes of `n`, least significant first.
pub open spec fn le_bytes(n: nat, width: nat) -> Seq<u8>
    decreases width,
{
    if width == 0 {
        Seq::empty()
    } else {
        seq![(n % 256) as u8] + le_bytes(n / 256, (width - 1) as nat)
    }
}

/// The integer that `bytes` writes, least significant byte first.
pub open spec fn le_value(bytes: Seq<u8>) -> nat
    decreases bytes.len(),
{
    if bytes.len() == 0 {
        0
    } else {
        bytes[0] as nat + 256 * le_value(bytes.drop_first())
    }
}

/// The number of integers that `width` bytes can write.
pub open spec fn le_limit(width: nat) -> nat
    decreases width,
{
    if width == 0 {
        1
    } else {
        256 * le_limit((width - 1) as nat)
    }
}

/// Bytes written for an integer are as many as asked for, and give the
/// integer back where it is below the limit of that width.
pub proof fn lemma_le_bytes(n: nat, width: nat)
    ensures
        le_bytes(n, width).len() == width,
        n < le_limit(width) ==> le_value(le_bytes(n, width)) == n,
    decreases width,
{
    if width > 0 {
        lemma_le_bytes(n / 256, (width - 1) as nat);
        assert(le_bytes(n, width).drop_first() =~= le_bytes(n / 256, (width - 1) as nat));
    }
}

/// What bytes write is below the limit of their number.
pub proof fn lemma_le_value(bytes: Seq<u8>)
    ensures
        le_value(bytes) < le_limit(bytes.len()),
    decreases bytes.len(),
{
    if bytes.len() > 0 {
        lemma_le_value(bytes.drop_first());
    }
}

/// Eight bytes write exactly the integers of 64 bits.
pub proof fn lemma_le_limit_8()
    ensures
        le_limit(8) == 0x1_0000_0000_0000_0000,
{
    reveal_with_fuel(le_limit, 9);
}

/// The eight bytes of `n`, least significant first.
pub open spec fn u64_bytes(n: u64) -> Seq<u8> {
    le_bytes(n as nat, 8)
}

/// The integer written in the eight bytes of `bytes` from `pos` on, and the
/// position after them.
pub open spec fn u64_at(bytes: Seq<u8>, pos: int) -> Option<(u64, int)> {
    if 0 <= pos && pos + 8 <= bytes.len() {
        Some((le_value(bytes.subrange(pos, pos + 8)) as u64, pos + 8))
    } else {
        None
    }
}

/// An integer is read back from where its bytes are held.
pub proof fn lemma_u64_at(bytes: Seq<u8>, pos: int, n: u64)
    requires
        holds_at(bytes, pos, u64_bytes(n)),
    ensures
        u64_bytes(n).len() == 8,
        u64_at(bytes, pos) == Some((n, pos + 8)),
{
    lemma_le_bytes(n as nat, 8);
    lemma_le_limit_8();
}

/// Appends the eight bytes of `n`.
pub fn put_u64(out: &mut Vec<u8>, n: u64)
    ensures
        final(out)@ == old(out)@ + u64_bytes(n),
{
    let mut rest: u64 = n;
    let mut k: usize = 0;
    while k < 8
        invariant
            k <= 8,
            old(out)@ + le_bytes(n as nat, 8) == out@ + le_bytes(rest as nat, (8 - k) as nat),
        decreases 8 - k,
    {
        let ghost before = out@;
        out.push((rest % 256) as u8);
        assert(before + le_bytes(rest as nat, (8 - k) as nat) =~= out@ + le_bytes(
            (rest / 256) as nat,
            (8 - k - 1) as nat,
        ));
        rest = rest / 256;
        k = k + 1;
    }
    assert(out@ + le_bytes(rest as nat, 0) =~= out@);
}

/// Reads an integer at `pos`.
pub fn take_u64(bytes: &[u8], pos: usize) -> (read: Option<(u64, usize)>)
    requires
        pos <= bytes@.len(),
    ensures
        match read {
            Some((n, next)) => u64_at(bytes@, pos as int) == Some((n, next as int)) && next
                <= bytes@.len(),
            None => u64_at(bytes@, pos as int) is None,
        },
{
    let total = bytes.len();
    if total - pos < 8 {
        return None;
    }
    let ghost window = bytes@.subrange(pos as int, pos + 8);
    let mut value: u64 = 0;
    let mut k: usize = 8;
    assert(window.subrange(8, 8) =~= Seq::empty());
    while k > 0
        invariant
            k <= 8,
            pos + 8 <= total,
            total == bytes@.len(),
            window == bytes@.subrange(pos as int, pos + 8),
            value == le_value(window.subrange(k as int, 8)),
        decreases k,
    {
        proof {
            let tail = window.subrange(k as int, 8);
            let longer = window.subrange(k - 1, 8);
            assert(longer.drop_first() =~= tail);
            lemma_le_value(tail);
            lemma_le_value(longer);
            reveal_with_fuel(le_limit, 9);
        }
        k = k - 1;
        value = bytes[pos + k] as u64 + 256 * value;
    }
    assert(window.subrange(0, 8) =~= window);
    Some((value, pos + 8))
}

/// The byte at `pos`, and the position after it.
pub open spec fn byte_at(bytes: Seq<u8>, pos: int) -> Option<(u8, int)> {
    if 0 <= pos < bytes.len() {
        Some((bytes[pos], pos + 1))
    } else {
        None
    }
}

/// A byte is read back from where it is held.
pub proof fn lemma_byte_at(bytes: Seq<u8>, pos: int, b: u8)
    requires
        holds_at(bytes, pos, seq![b]),
    ensures
        byte_at(bytes, pos) == Some((b, pos + 1)),
{
    assert(bytes.subrange(pos, pos + 1)[0] == seq![b][0]);
}

/// Reads a byte at `pos`.
pub fn take_byte(bytes: &[u8], pos: usize) -> (read: Option<(u8, usize)>)
    requires
        pos <= bytes@.len(),
    ensures
        match read {
            Some((b, next)) => byte_at(bytes@, pos as int) == Some((b, next as int)) && next
                <= bytes@.len(),
            None => byte_at(bytes@, pos as int) is None,
        },
{
    if pos < bytes.len() {
        Some((bytes[pos], pos + 1))
    } else {
        None
    }
}

/// The bytes of the string `s`: the length of its UTF-8 form, then that
/// form.
pub open spec fn text_bytes(s: Seq<char>) -> Seq<u8> {
    u64_bytes(encode_utf8(s).len() as u64) + encode_utf8(s)
}

/// The string written from `pos` on, and the position after it.
pub open spec fn text_at(bytes: Seq<u8>, pos: int) -> Option<(Seq<char>, int)> {
    match u64_at(bytes, pos) {
        Some((n, start)) => if start + n <= bytes.len() && valid_utf8(
            bytes.subrange(start, start + n),
        ) {
            Some((decode_utf8(bytes.subrange(start, start + n)), start + n))
        } else {
            None
        },
        None => None,
    }
}

/// A string is read back from where its bytes are held.
pub proof fn lemma_text_at(bytes: Seq<u8>, pos: int, s: Seq<char>)
    requires
        holds_at(bytes, pos, text_bytes(s)),
        encode_utf8(s).len() <= u64::MAX,
    ensures
        text_at(bytes, pos) == Some((s, pos + text_bytes(s).len())),
{
    let form = encode_utf8(s);
    let n = form.len() as u64;
    lemma_holds_split(bytes, pos, u64_bytes(n), form);
    lemma_u64_at(bytes, pos, n);
    encode_utf8_valid_utf8(s);
    encode_utf8_decode_utf8(s);
    assert(bytes.subrange(pos + 8, pos + 8 + n) == form);
}

/// Reads `bytes` as UTF-8.
///
/// Trusted: the body calls `std::str::from_utf8`. The contract claims that a
/// string comes back with exactly the bytes given, and that none comes back
/// only where the bytes are not valid UTF-8.
#[verifier::external_body]
fn utf8_text(bytes: &[u8]) -> (text: Option<&str>)
    ensures
        match text {
            Some(s) => s.spec_bytes() == bytes@,
            None => !valid_utf8(bytes@),
        },
{
    std::str::from_utf8(bytes).ok()
}

/// Appends the bytes of the string `s`.
pub fn put_text(out: &mut Vec<u8>, s: &str)
    ensures
        final(out)@ == old(out)@ + text_bytes(s@),
        encode_utf8(s@).len() <= u64::MAX,
{
    let form = s.as_bytes();
    put_u64(out, form.len() as u64);
    let mut i: usize = 0;
    while i < form.len()
        invariant
            i <= form.len(),
            form@ == encode_utf8(s@),
            out@ == old(out)@ + u64_bytes(form@.len() as u64) + form@.subrange(0, i as int),
        decreases form.len() - i,
    {
        out.push(form[i]);
        assert(out@ =~= old(out)@ + u64_bytes(form@.len() as u64) + form@.subrange(0, i + 1));
        i = i + 1;
    }
    assert(out@ =~= old(out)@ + text_bytes(s@));
}

/// Reads a string at `pos`.
pub fn take_text(bytes: &[u8], pos: usize) -> (read: Option<(String, usize)>)
    requires
        pos <= bytes@.len(),
    ensures
        match read {
            Some((s, next)) => text_at(bytes@, pos as int) == Some((s@, next as int)) && next
                <= bytes@.len(),
            None => text_at(bytes@, pos as int) is None,
        },
{
    match take_u64(bytes, pos) {
        Some((n, start)) => {
            if n > (bytes.len() - start) as u64 {
                return None;
            }
            let end = start + n as usize;
            let window = slice_subrange(bytes, start, end);
            match utf8_text(window) {
                Some(s) => {
                    proof {
                        encode_utf8_decode_utf8(s@);
                        encode_utf8_valid_utf8(s@);
                    }
                    Some((String::from_str(s), end))
                },
                None => None,
            }
        },
        None => None,
    }
}

/// The UTF-8 form of `s` has a length that eight bytes can write.
pub open spec fn text_fits(s: Seq<char>) -> bool {
    encode_utf8(s).len() <= u64::MAX
}

/// The items written from `pos` on, `count` of them in a row, each read by
/// `item_at`, and the position after them.
pub open spec fn list_at<T>(
    item_at: spec_fn(Seq<u8>, int) -> Option<(T, int)>,
    bytes: Seq<u8>,
    pos: int,
    count: nat,
) -> Option<(Seq<T>, int)>
    decreases count,
{
    if count == 0 {
        Some((Seq::empty(), pos))
    } else {
        match item_at(bytes, pos) {
            Some((item, next)) => match list_at(item_at, bytes, next, (count - 1) as nat) {
                Some((rest, end)) => Some((seq![item] + rest, end)),
                None => None,
            },
            None => None,
        }
    }
}

/// The bytes of `items` in a row, each written by `item_bytes`.
pub open spec fn list_bytes<T>(item_bytes: spec_fn(T) -> Seq<u8>, items: Seq<T>) -> Seq<u8>
    decreases items.len(),
{
    if items.len() == 0 {
        Seq::empty()
    } else {
        item_bytes(items[0]) + list_bytes(item_bytes, items.drop_first())
    }
}

/// Wherever the bytes of `item` are held, `item_at` reads `item` back.
pub open spec fn reads_back<T>(
    item_at: spec_fn(Seq<u8>, int) -> Option<(T, int)>,
    item_bytes: spec_fn(T) -> Seq<u8>,
    item: T,
) -> bool {
    forall|bytes: Seq<u8>, pos: int|
        holds_at(bytes, pos, item_bytes(item)) ==> #[trigger] item_at(bytes, pos) == Some(
            (item, pos + item_bytes(item).len()),
        )
}

/// A list is read back from where its bytes are held, if each of its items
/// is.
pub proof fn lemma_list_at<T>(
    item_at: spec_fn(Seq<u8>, int) -> Option<(T, int)>,
    item_bytes: spec_fn(T) -> Seq<u8>,
    bytes: Seq<u8>,
    pos: int,
    items: Seq<T>,
)
    requires
        holds_at(bytes, pos, list_bytes(item_bytes, items)),
        forall|i: int| 0 <= i < items.len() ==> reads_back(item_at, item_bytes, #[trigger] items[i]),
    ensures
        list_at(item_at, bytes, pos, items.len()) == Some(
            (items, pos + list_bytes(item_bytes, items).len()),
        ),
    decreases items.len(),
{
    if items.len() > 0 {
        let first = item_bytes(items[0]);
        let rest = items.drop_first();
        lemma_holds_split(bytes, pos, first, list_bytes(item_bytes, rest));
        assert(reads_back(item_at, item_bytes, items[0]));
        assert forall|i: int| 0 <= i < rest.len() implies reads_back(
            item_at,
            item_bytes,
            #[trigger] rest[i],
        ) by {
            assert(rest[i] == items[i + 1]);
        }
        lemma_list_at(item_at, item_bytes, bytes, pos + first.len(), rest);
        assert(seq![items[0]] + rest =~= items);
    }
}

/// The bytes of a list with one more item at its end are the bytes of the
/// list and then those of the item.
pub proof fn lemma_list_bytes_push<T>(item_bytes: spec_fn(T) -> Seq<u8>, items: Seq<T>, item: T)
    ensures
        list_bytes(item_bytes, items.push(item)) == list_bytes(item_bytes, items) + item_bytes(
            item,
        ),
    decreases items.len(),
{
    let longer = items.push(item);
    if items.len() == 0 {
        assert(longer.drop_first() =~= Seq::empty());
        assert(longer[0] == item);
        assert(list_bytes(item_bytes, longer.drop_first()) =~= Seq::empty());
        assert(list_bytes(item_bytes, longer) =~= item_bytes(item));
        assert(list_bytes(item_bytes, items) + item_bytes(item) =~= item_bytes(item));
    } else {
        lemma_list_bytes_push(item_bytes, items.drop_first(), item);
        assert(longer.drop_first() =~= items.drop_first().push(item));
        assert(list_bytes(item_bytes, longer) =~= list_bytes(item_bytes, items) + item_bytes(
            item,
        ));
    }
}

/// The byte that stands for `lifetime`.
pub open spec fn lifetime_byte(lifetime: Lifetime) -> u8 {
    match lifetime {
        Lifetime::Ping => 0,
        Lifetime::Application => 1,
        Lifetime::User => 2,
    }
}

/// The lifetime written at `pos`, and the position after it.
pub open spec fn lifetime_at(bytes: Seq<u8>, pos: int) -> Option<(Lifetime, int)> {
    match byte_at(bytes, pos) {
        Some((b, next)) => if b == 0 {
            Some((Lifetime::Ping, next))
        } else if b == 1 {
            Some((Lifetime::Application, next))
        } else if b == 2 {
            Some((Lifetime::User, next))
        } else {
            None
        },
        None => None,
    }
}

/// The bytes of the metric value `value`: a byte for its kind, then what it
/// holds.
pub open spec fn metric_bytes(value: MetricValue) -> Seq<u8> {
    match value {
        MetricValue::String(s) => seq![0u8] + text_bytes(s),
        MetricValue::Boolean(b) => seq![1u8, if b { 1u8 } else { 0u8 }],
        MetricValue::Counter(n) => seq![2u8] + u64_bytes(n),
    }
}

/// The metric value written from `pos` on, and the position after it.
pub open spec fn metric_at(bytes: Seq<u8>, pos: int) -> Option<(MetricValue, int)> {
    match byte_at(bytes, pos) {
        Some((kind, next)) => if kind == 0 {
            match text_at(bytes, next) {
                Some((s, end)) => Some((MetricValue::String(s), end)),
                None => None,
            }
        } else if kind == 1 {
            match byte_at(bytes, next) {
                Some((b, end)) => if b == 0 {
                    Some((MetricValue::Boolean(false), end))
                } else if b == 1 {
                    Some((MetricValue::Boolean(true), end))
                } else {
                    None
                },
                None => None,
            }
        } else if kind == 2 {
            match u64_at(bytes, next) {
                Some((n, end)) => Some((MetricValue::Counter(n), end)),
                None => None,
            }
        } else {
            None
        },
        None => None,
    }
}

/// The strings of `value` have lengths that can be written.
pub open spec fn metric_fits(value: MetricValue) -> bool {
    match value {
        MetricValue::String(s) => text_fits(s),
        _ => true,
    }
}

/// A metric value is read back from where its bytes are held.
pub proof fn lemma_metric_at(bytes: Seq<u8>, pos: int, value: MetricValue)
    requires
        holds_at(bytes, pos, metric_bytes(value)),
        metric_fits(value),
    ensures
        metric_at(bytes, pos) == Some((value, pos + metric_bytes(value).len())),
{
    match value {
        MetricValue::String(s) => {
            lemma_holds_split(bytes, pos, seq![0u8], text_bytes(s));
            lemma_byte_at(bytes, pos, 0u8);
            lemma_text_at(bytes, pos + 1, s);
        },
        MetricValue::Boolean(b) => {
            let flag = if b {
                1u8
            } else {
                0u8
            };
            assert(seq![1u8, flag] =~= seq![1u8] + seq![flag]);
            lemma_holds_split(bytes, pos, seq![1u8], seq![flag]);
            lemma_byte_at(bytes, pos, 1u8);
            lemma_byte_at(bytes, pos + 1, flag);
        },
        MetricValue::Counter(n) => {
            lemma_holds_split(bytes, pos, seq![2u8], u64_bytes(n));
            lemma_byte_at(bytes, pos, 2u8);
            lemma_u64_at(bytes, pos + 1, n);
        },
    }
}

/// One metric of a store: its place and its value.
pub type MetricItem = (Slot, MetricValue);

/// The bytes of a metric: its lifetime, the three strings of its key, and
/// its value.
pub open spec fn metric_item_bytes(item: MetricItem) -> Seq<u8> {
    seq![lifetime_byte(item.0.0)] + text_bytes(item.0.1.category) + text_bytes(item.0.1.name)
        + text_bytes(item.0.1.ping) + metric_bytes(item.1)
}

/// The metric written from `pos` on, and the position after it.
pub open spec fn metric_item_at(bytes: Seq<u8>, pos: int) -> Option<(MetricItem, int)> {
    match lifetime_at(bytes, pos) {
        Some((lifetime, i1)) => match text_at(bytes, i1) {
            Some((category, i2)) => match text_at(bytes, i2) {
                Some((name, i3)) => match text_at(bytes, i3) {
                    Some((ping, i4)) => match metric_at(bytes, i4) {
                        Some((value, end)) => Some(
                            (((lifetime, KeyView { category, name, ping }), value), end),
                        ),
                        None => None,
                    },
                    None => None,
                },
                None => None,
            },
            None => None,
        },
        None => None,
    }
}

/// The strings of `item` have lengths that can be written.
pub open spec fn metric_item_fits(item: MetricItem) -> bool {
    &&& text_fits(item.0.1.category)
    &&& text_fits(item.0.1.name)
    &&& text_fits(item.0.1.ping)
    &&& metric_fits(item.1)
}

/// A metric is read back from where its bytes are held.
pub proof fn lemma_metric_item_at(bytes: Seq<u8>, pos: int, item: MetricItem)
    requires
        holds_at(bytes, pos, metric_item_bytes(item)),
        metric_item_fits(item),
    ensures
        metric_item_at(bytes, pos) == Some((item, pos + metric_item_bytes(item).len())),
{
    let tag = seq![lifetime_byte(item.0.0)];
    let category = text_bytes(item.0.1.category);
    let name = text_bytes(item.0.1.name);
    let ping = text_bytes(item.0.1.ping);
    let value = metric_bytes(item.1);
    lemma_holds_split(bytes, pos, tag + category + name + ping, value);
    lemma_holds_split(bytes, pos, tag + category + name, ping);
    lemma_holds_split(bytes, pos, tag + category, name);
    lemma_holds_split(bytes, pos, tag, category);
    lemma_byte_at(bytes, pos, lifetime_byte(item.0.0));
    lemma_text_at(bytes, pos + 1, item.0.1.category);
    lemma_text_at(bytes, pos + 1 + category.len(), item.0.1.name);
    lemma_text_at(bytes, pos + 1 + category.len() + name.len(), item.0.1.ping);
    lemma_metric_at(bytes, pos + 1 + category.len() + name.len() + ping.len(), item.1);
}

/// The bytes of a pair of strings.
pub open spec fn pair_bytes(pair: (Seq<char>, Seq<char>)) -> Seq<u8> {
    text_bytes(pair.0) + text_bytes(pair.1)
}

/// The pair of strings written from `pos` on, and the position after it.
pub open spec fn pair_at(bytes: Seq<u8>, pos: int) -> Option<((Seq<char>, Seq<char>), int)> {
    match text_at(bytes, pos) {
        Some((key, next)) => match text_at(bytes, next) {
            Some((value, end)) => Some(((key, value), end)),
            None => None,
        },
        None => None,
    }
}

/// Both strings of `pair` have lengths that can be written.
pub open spec fn pair_fits(pair: (Seq<char>, Seq<char>)) -> bool {
    text_fits(pair.0) && text_fits(pair.1)
}

/// A pair of strings is read back from where its bytes are held.
pub proof fn lemma_pair_at(bytes: Seq<u8>, pos: int, pair: (Seq<char>, Seq<char>))
    requires
        holds_at(bytes, pos, pair_bytes(pair)),
        pair_fits(pair),
    ensures
        pair_at(bytes, pos) == Some((pair, pos + pair_bytes(pair).len())),
{
    lemma_holds_split(bytes, pos, text_bytes(pair.0), text_bytes(pair.1));
    lemma_text_at(bytes, pos, pair.0);
    lemma_text_at(bytes, pos + text_bytes(pair.0).len(), pair.1);
}

/// `pair_at` as a reader of list items.
pub open spec fn pair_reader() -> spec_fn(Seq<u8>, int) -> Option<((Seq<char>, Seq<char>), int)> {
    |bytes: Seq<u8>, pos: int| pair_at(bytes, pos)
}

/// `pair_bytes` as a writer of list items.
pub open spec fn pair_writer() -> spec_fn((Seq<char>, Seq<char>)) -> Seq<u8> {
    |pair: (Seq<char>, Seq<char>)| pair_bytes(pair)
}

/// The bytes of extra data: a byte that says whether there is any, then the
/// count of its entries and the entries themselves.
pub open spec fn extra_bytes(extra: Option<ExtraView>) -> Seq<u8> {
    match extra {
        Some(entries) => seq![1u8] + u64_bytes(entries.len() as u64) + list_bytes(
            pair_writer(),
            entries,
        ),
        None => seq![0u8],
    }
}

/// The extra data written from `pos` on, and the position after it.
pub open spec fn extra_at(bytes: Seq<u8>, pos: int) -> Option<(Option<ExtraView>, int)> {
    match byte_at(bytes, pos) {
        Some((flag, next)) => if flag == 0 {
            Some((None, next))
        } else if flag == 1 {
            match u64_at(bytes, next) {
                Some((count, start)) => match list_at(
                    pair_reader(),
                    bytes,
                    start,
                    count as nat,
                ) {
                    Some((entries, end)) => Some((Some(entries), end)),
                    None => None,
                },
                None => None,
            }
        } else {
            None
        },
        None => None,
    }
}

/// The entries of `extra` are few enough to be counted, and their strings
/// have lengths that can be written.
pub open spec fn extra_fits(extra: Option<ExtraView>) -> bool {
    match extra {
        Some(entries) => entries.len() <= u64::MAX && forall|i: int|
            0 <= i < entries.len() ==> pair_fits(#[trigger] entries[i]),
        None => true,
    }
}

/// Extra data is read back from where its bytes are held.
pub proof fn lemma_extra_at(bytes: Seq<u8>, pos: int, extra: Option<ExtraView>)
    requires
        holds_at(bytes, pos, extra_bytes(extra)),
        extra_fits(extra),
    ensures
        extra_at(bytes, pos) == Some((extra, pos + extra_bytes(extra).len())),
{
    match extra {
        Some(entries) => {
            let item_at = pair_reader();
            let item_bytes = pair_writer();
            let count = u64_bytes(entries.len() as u64);
            let list = list_bytes(item_bytes, entries);
            lemma_holds_split(bytes, pos, seq![1u8] + count, list);
            lemma_holds_split(bytes, pos, seq![1u8], count);
            lemma_byte_at(bytes, pos, 1u8);
            lemma_u64_at(bytes, pos + 1, entries.len() as u64);
            assert forall|i: int| 0 <= i < entries.len() implies reads_back(
                item_at,
                item_bytes,
                #[trigger] entries[i],
            ) by {
                let pair = entries[i];
                assert forall|b: Seq<u8>, p: int| holds_at(b, p, item_bytes(pair)) implies (
                #[trigger] item_at(b, p)) == Some((pair, p + item_bytes(pair).len())) by {
                    lemma_pair_at(b, p, pair);
                }
            }
            lemma_list_at(item_at, item_bytes, bytes, pos + 9, entries);
        },
        None => {
            lemma_byte_at(bytes, pos, 0u8);
        },
    }
}

/// One experiment of a store: its id, its branch and its extra data.
pub type ExperimentItem = (Seq<char>, Seq<char>, Option<ExtraView>);

/// The bytes of an experiment: its id, its branch and its extra data.
pub open spec fn experiment_item_bytes(item: ExperimentItem) -> Seq<u8> {
    text_bytes(item.0) + text_bytes(item.1) + extra_bytes(item.2)
}

/// The experiment written from `pos` on, and the position after it.
pub open spec fn experiment_item_at(bytes: Seq<u8>, pos: int) -> Option<(ExperimentItem, int)> {
    match text_at(bytes, pos) {
        Some((id, i1)) => match text_at(bytes, i1) {
            Some((branch, i2)) => match extra_at(bytes, i2) {
                Some((extra, end)) => Some(((id, branch, extra), end)),
                None => None,
            },
            None => None,
        },
        None => None,
    }
}

/// The strings and counts of `item` can be written.
pub open spec fn experiment_item_fits(item: ExperimentItem) -> bool {
    text_fits(item.0) && text_fits(item.1) && extra_fits(item.2)
}

/// An experiment is read back from where its bytes are held.
pub proof fn lemma_experiment_item_at(bytes: Seq<u8>, pos: int, item: ExperimentItem)
    requires
        holds_at(bytes, pos, experiment_item_bytes(item)),
        experiment_item_fits(item),
    ensures
        experiment_item_at(bytes, pos) == Some((item, pos + experiment_item_bytes(item).len())),
{
    let id = text_bytes(item.0);
    let branch = text_bytes(item.1);
    lemma_holds_split(bytes, pos, id + branch, extra_bytes(item.2));
    lemma_holds_split(bytes, pos, id, branch);
    lemma_text_at(bytes, pos, item.0);
    lemma_text_at(bytes, pos + id.len(), item.1);
    lemma_extra_at(bytes, pos + id.len() + branch.len(), item.2);
}

/// Appends the byte of `lifetime`.
pub fn put_lifetime(out: &mut Vec<u8>, lifetime: Lifetime)
    ensures
        final(out)@ == old(out)@ + seq![lifetime_byte(lifetime)],
{
    let tag: u8 = match lifetime {
        Lifetime::Ping => 0,
        Lifetime::Application => 1,
        Lifetime::User => 2,
    };
    out.push(tag);
    assert(out@ =~= old(out)@ + seq![lifetime_byte(lifetime)]);
}

/// Reads a lifetime at `pos`.
pub fn take_lifetime(bytes: &[u8], pos: usize) -> (read: Option<(Lifetime, usize)>)
    requires
        pos <= bytes@.len(),
    ensures
        match read {
            Some((lifetime, next)) => lifetime_at(bytes@, pos as int) == Some(
                (lifetime, next as int),
            ) && next <= bytes@.len(),
            None => lifetime_at(bytes@, pos as int) is None,
        },
{
    match take_byte(bytes, pos) {
        Some((tag, next)) => {
            if tag == 0 {
                Some((Lifetime::Ping, next))
            } else if tag == 1 {
                Some((Lifetime::Application, next))
            } else if tag == 2 {
                Some((Lifetime::User, next))
            } else {
                None
            }
        },
        None => None,
    }
}

/// Appends the bytes of the metric value `value`.
pub fn put_metric(out: &mut Vec<u8>, value: &Metric)
    ensures
        final(out)@ == old(out)@ + metric_bytes(value@),
        metric_fits(value@),
{
    match value {
        Metric::String(s) => {
            out.push(0);
            put_text(out, s.as_str());
            assert(out@ =~= old(out)@ + metric_bytes(value@));
        },
        Metric::Boolean(b) => {
            out.push(1);
            out.push(if *b { 1 } else { 0 });
            assert(out@ =~= old(out)@ + metric_bytes(value@));
        },
        Metric::Counter(n) => {
            out.push(2);
            put_u64(out, *n);
            assert(out@ =~= old(out)@ + metric_bytes(value@));
        },
    }
}

/// Reads a metric value at `pos`.
pub fn take_metric(bytes: &[u8], pos: usize) -> (read: Option<(Metric, usize)>)
    requires
        pos <= bytes@.len(),
    ensures
        match read {
            Some((value, next)) => metric_at(bytes@, pos as int) == Some((value@, next as int))
                && next <= bytes@.len(),
            None => metric_at(bytes@, pos as int) is None,
        },
{
    match take_byte(bytes, pos) {
        Some((kind, next)) => {
            if kind == 0 {
                match take_text(bytes, next) {
                    Some((s, end)) => Some((Metric::String(s), end)),
                    None => None,
                }
            } else if kind == 1 {
                match take_byte(bytes, next) {
                    Some((b, end)) => {
                        if b == 0 {
                            Some((Metric::Boolean(false), end))
                        } else if b == 1 {
                            Some((Metric::Boolean(true), end))
                        } else {
                            None
                        }
                    },
                    None => None,
                }
            } else if kind == 2 {
                match take_u64(bytes, next) {
                    Some((n, end)) => Some((Metric::Counter(n), end)),
                    None => None,
                }
            } else {
                None
            }
        },
        None => None,
    }
}

/// Appends the bytes of the metric at `key` under `lifetime` with the value
/// `value`.
pub fn put_metric_item(out: &mut Vec<u8>, lifetime: Lifetime, key: &StorageKey, value: &Metric)
    ensures
        final(out)@ == old(out)@ + metric_item_bytes(((lifetime, key@), value@)),
        metric_item_fits(((lifetime, key@), value@)),
{
    put_lifetime(out, lifetime);
    put_text(out, key.category.as_str());
    put_text(out, key.name.as_str());
    put_text(out, key.ping.as_str());
    put_metric(out, value);
    assert(out@ =~= old(out)@ + metric_item_bytes(((lifetime, key@), value@)));
}

/// Reads a metric at `pos`: its lifetime, its key and its value.
pub fn take_metric_item(bytes: &[u8], pos: usize) -> (read: Option<
    (Lifetime, StorageKey, Metric, usize),
>)
    requires
        pos <= bytes@.len(),
    ensures
        match read {
            Some((lifetime, key, value, next)) => metric_item_at(bytes@, pos as int) == Some(
                (((lifetime, key@), value@), next as int),
            ) && next <= bytes@.len(),
            None => metric_item_at(bytes@, pos as int) is None,
        },
{
    let (lifetime, i1) = match take_lifetime(bytes, pos) {
        Some(read) => read,
        None => {
            return None;
        },
    };
    let (category, i2) = match take_text(bytes, i1) {
        Some(read) => read,
        None => {
            return None;
        },
    };
    let (name, i3) = match take_text(bytes, i2) {
        Some(read) => read,
        None => {
            return None;
        },
    };
    let (ping, i4) = match take_text(bytes, i3) {
        Some(read) => read,
        None => {
            return None;
        },
    };
    match take_metric(bytes, i4) {
        Some((value, end)) => Some((lifetime, StorageKey { category, name, ping }, value, end)),
        None => None,
    }
}

/// Appends the bytes of the extra data `extra`.
pub fn put_extra(out: &mut Vec<u8>, extra: Option<&Vec<(String, String)>>)
    ensures
        final(out)@ == old(out)@ + extra_bytes(
            match extra {
                Some(entries) => Some(pairs_view(entries@)),
                None => None,
            },
        ),
        extra_fits(
            match extra {
                Some(entries) => Some(pairs_view(entries@)),
                None => None,
            },
        ),
{
    match extra {
        Some(entries) => {
            let ghost all = pairs_view(entries@);
            out.push(1);
            put_u64(out, entries.len() as u64);
            let ghost head = out@;
            let mut i: usize = 0;
            assert(all.subrange(0, 0) =~= Seq::empty());
            assert(out@ =~= head + list_bytes(pair_writer(), all.subrange(0, 0)));
            while i < entries.len()
                invariant
                    i <= entries.len(),
                    all == pairs_view(entries@),
                    out@ == head + list_bytes(pair_writer(), all.subrange(0, i as int)),
                    forall|j: int| 0 <= j < i ==> pair_fits(#[trigger] all[j]),
                decreases entries.len() - i,
            {
                let ghost before = out@;
                put_text(out, entries[i].0.as_str());
                put_text(out, entries[i].1.as_str());
                proof {
                    lemma_list_bytes_push(pair_writer(), all.subrange(0, i as int), all[i as int]);
                    assert(all.subrange(0, i as int).push(all[i as int]) =~= all.subrange(
                        0,
                        i + 1,
                    ));
                    assert(out@ =~= before + pair_bytes(all[i as int]));
                }
                i = i + 1;
            }
            assert(all.subrange(0, entries.len() as int) =~= all);
            assert(out@ =~= old(out)@ + extra_bytes(Some(all)));
        },
        None => {
            out.push(0);
            assert(out@ =~= old(out)@ + extra_bytes(None));
        },
    }
}

/// Reads extra data at `pos`.
pub fn take_extra(bytes: &[u8], pos: usize) -> (read: Option<
    (Option<Vec<(String, String)>>, usize),
>)
    requires
        pos <= bytes@.len(),
    ensures
        match read {
            Some((extra, next)) => extra_at(bytes@, pos as int) == Some(
                (
                    match extra {
                        Some(entries) => Some(pairs_view(entries@)),
                        None => None,
                    },
                    next as int,
                ),
            ) && next <= bytes@.len(),
            None => extra_at(bytes@, pos as int) is None,
        },
{
    let (flag, next) = match take_byte(bytes, pos) {
        Some(read) => read,
        None => {
            return None;
        },
    };
    if flag == 0 {
        return Some((None, next));
    }
    if flag != 1 {
        return None;
    }
    let (count, start) = match take_u64(bytes, next) {
        Some(read) => read,
        None => {
            return None;
        },
    };
    let mut entries: Vec<(String, String)> = Vec::new();
    let mut at: usize = start;
    let mut i: u64 = 0;
    assert(pairs_view(entries@) =~= Seq::empty());
    while i < count
        invariant
            i <= count,
            at <= bytes@.len(),
            byte_at(bytes@, pos as int) == Some((1u8, next as int)),
            u64_at(bytes@, next as int) == Some((count, start as int)),
            list_at(pair_reader(), bytes@, start as int, count as nat) == match list_at(
                pair_reader(),
                bytes@,
                at as int,
                (count - i) as nat,
            ) {
                Some((rest, end)) => Some((pairs_view(entries@) + rest, end)),
                None => None,
            },
        decreases count - i,
    {
        let ghost done = pairs_view(entries@);
        let (key, i1) = match take_text(bytes, at) {
            Some(read) => read,
            None => {
                assert(pair_at(bytes@, at as int) is None);
                return None;
            },
        };
        let (value, i2) = match take_text(bytes, i1) {
            Some(read) => read,
            None => {
                assert(pair_at(bytes@, at as int) is None);
                return None;
            },
        };
        proof {
            assert(pair_at(bytes@, at as int) == Some(((key@, value@), i2 as int)));
            match list_at(pair_reader(), bytes@, i2 as int, (count - i - 1) as nat) {
                Some((rest, end)) => {
                    assert(done + (seq![(key@, value@)] + rest) =~= done.push((key@, value@))
                        + rest);
                },
                None => {},
            }
        }
        entries.push((key, value));
        assert(pairs_view(entries@) =~= done.push((key@, value@)));
        at = i2;
        i = i + 1;
    }
    assert(pairs_view(entries@) + Seq::empty() =~= pairs_view(entries@));
    Some((Some(entries), at))
}

/// Appends the bytes of the experiment `id` on `branch` with `extra`.
pub fn put_experiment_item(
    out: &mut Vec<u8>,
    id: &str,
    branch: &str,
    extra: Option<&Vec<(String, String)>>,
)
    ensures
        final(out)@ == old(out)@ + experiment_item_bytes(
            (
                id@,
                branch@,
                match extra {
                    Some(entries) => Some(pairs_view(entries@)),
                    None => None,
                },
            ),
        ),
        experiment_item_fits(
            (
                id@,
                branch@,
                match extra {
                    Some(entries) => Some(pairs_view(entries@)),
                    None => None,
                },
            ),
        ),
{
    put_text(out, id);
    put_text(out, branch);
    put_extra(out, extra);
    assert(out@ =~= old(out)@ + experiment_item_bytes(
        (
            id@,
            branch@,
            match extra {
                Some(entries) => Some(pairs_view(entries@)),
                None => None,
            },
        ),
    ));
}

/// Reads an experiment at `pos`: its id, its branch and its extra data.
pub fn take_experiment_item(bytes: &[u8], pos: usize) -> (read: Option<
    (String, String, Option<Vec<(String, String)>>, usize),
>)
    requires
        pos <= bytes@.len(),
    ensures
        match read {
            Some((id, branch, extra, next)) => experiment_item_at(bytes@, pos as int) == Some(
                (
                    (
                        id@,
                        branch@,
                        match extra {
                            Some(entries) => Some(pairs_view(entries@)),
                            None => None,
                        },
                    ),
                    next as int,
                ),
            ) && next <= bytes@.len(),
            None => experiment_item_at(bytes@, pos as int) is None,
        },
{
    let (id, i1) = match take_text(bytes, pos) {
        Some(read) => read,
        None => {
            return None;
        },
    };
    let (branch, i2) = match take_text(bytes, i1) {
        Some(read) => read,
        None => {
            return None;
        },
    };
    match take_extra(bytes, i2) {
        Some((extra, end)) => Some((id, branch, extra, end)),
        None => None,
    }
}

/// `metric_item_at` as a reader of list items.
pub open spec fn metric_reader() -> spec_fn(Seq<u8>, int) -> Option<(MetricItem, int)> {
    |bytes: Seq<u8>, pos: int| metric_item_at(bytes, pos)
}

/// `metric_item_bytes` as a writer of list items.
pub open spec fn metric_writer() -> spec_fn(MetricItem) -> Seq<u8> {
    |item: MetricItem| metric_item_bytes(item)
}

/// `experiment_item_at` as a reader of list items.
pub open spec fn experiment_reader() -> spec_fn(Seq<u8>, int) -> Option<(ExperimentItem, int)> {
    |bytes: Seq<u8>, pos: int| experiment_item_at(bytes, pos)
}

/// `experiment_item_bytes` as a writer of list items.
pub open spec fn experiment_writer() -> spec_fn(ExperimentItem) -> Seq<u8> {
    |item: ExperimentItem| experiment_item_bytes(item)
}

/// The six bytes that every image begins with: `GLEAN`, and the version of
/// the layout.
pub open spec fn header() -> Seq<u8> {
    seq![71u8, 76u8, 69u8, 65u8, 78u8, 1u8]
}

/// The image of a store with the metrics `metrics` and the experiments
/// `experiments`: the header, then each list with its count before it.
pub open spec fn image_bytes(metrics: Seq<MetricItem>, experiments: Seq<ExperimentItem>) -> Seq<
    u8,
> {
    header() + u64_bytes(metrics.len() as u64) + list_bytes(metric_writer(), metrics) + u64_bytes(
        experiments.len() as u64,
    ) + list_bytes(experiment_writer(), experiments)
}

/// The metrics and the experiments that the image `bytes` lists, where
/// `bytes` is an image: it begins with the header, holds both lists whole,
/// and ends with them.
pub open spec fn image_at(bytes: Seq<u8>) -> Option<(Seq<MetricItem>, Seq<ExperimentItem>)> {
    if !holds_at(bytes, 0, header()) {
        None
    } else {
        match u64_at(bytes, 6) {
            Some((metric_count, i1)) => match list_at(
                metric_reader(),
                bytes,
                i1,
                metric_count as nat,
            ) {
                Some((metrics, i2)) => match u64_at(bytes, i2) {
                    Some((experiment_count, i3)) => match list_at(
                        experiment_reader(),
                        bytes,
                        i3,
                        experiment_count as nat,
                    ) {
                        Some((experiments, end)) => if end == bytes.len() {
                            Some((metrics, experiments))
                        } else {
                            None
                        },
                        None => None,
                    },
                    None => None,
                },
                None => None,
            },
            None => None,
        }
    }
}

/// Both lists can be written: they can be counted, and each item fits.
pub open spec fn image_fits(metrics: Seq<MetricItem>, experiments: Seq<ExperimentItem>) -> bool {
    &&& metrics.len() <= u64::MAX
    &&& experiments.len() <= u64::MAX
    &&& forall|i: int| 0 <= i < metrics.len() ==> metric_item_fits(#[trigger] metrics[i])
    &&& forall|i: int| 0 <= i < experiments.len() ==> experiment_item_fits(#[trigger] experiments[i])
}

/// A list of metrics is read back from where its bytes are held.
pub proof fn lemma_metric_list_at(bytes: Seq<u8>, pos: int, metrics: Seq<MetricItem>)
    requires
        holds_at(bytes, pos, list_bytes(metric_writer(), metrics)),
        forall|i: int| 0 <= i < metrics.len() ==> metric_item_fits(#[trigger] metrics[i]),
    ensures
        list_at(metric_reader(), bytes, pos, metrics.len()) == Some(
            (metrics, pos + list_bytes(metric_writer(), metrics).len()),
        ),
{
    assert forall|i: int| 0 <= i < metrics.len() implies reads_back(
        metric_reader(),
        metric_writer(),
        #[trigger] metrics[i],
    ) by {
        let item = metrics[i];
        assert forall|b: Seq<u8>, p: int| holds_at(b, p, metric_writer()(item)) implies (
        #[trigger] metric_reader()(b, p)) == Some((item, p + metric_writer()(item).len())) by {
            lemma_metric_item_at(b, p, item);
        }
    }
    lemma_list_at(metric_reader(), metric_writer(), bytes, pos, metrics);
}

/// A list of experiments is read back from where its bytes are held.
pub proof fn lemma_experiment_list_at(bytes: Seq<u8>, pos: int, experiments: Seq<ExperimentItem>)
    requires
        holds_at(bytes, pos, list_bytes(experiment_writer(), experiments)),
        forall|i: int|
            0 <= i < experiments.len() ==> experiment_item_fits(#[trigger] experiments[i]),
    ensures
        list_at(experiment_reader(), bytes, pos, experiments.len()) == Some(
            (experiments, pos + list_bytes(experiment_writer(), experiments).len()),
        ),
{
    assert forall|i: int| 0 <= i < experiments.len() implies reads_back(
        experiment_reader(),
        experiment_writer(),
        #[trigger] experiments[i],
    ) by {
        let item = experiments[i];
        assert forall|b: Seq<u8>, p: int| holds_at(b, p, experiment_writer()(item)) implies (
        #[trigger] experiment_reader()(b, p)) == Some(
            (item, p + experiment_writer()(item).len()),
        ) by {
            lemma_experiment_item_at(b, p, item);
        }
    }
    lemma_list_at(experiment_reader(), experiment_writer(), bytes, pos, experiments);
}

/// The whole of `bytes` is held at its beginning.
pub proof fn lemma_holds_whole(bytes: Seq<u8>)
    ensures
        holds_at(bytes, 0, bytes),
{
    assert(bytes.subrange(0, bytes.len() as int) =~= bytes);
}

/// What an image was written from is what it lists.
pub proof fn lemma_image_at(metrics: Seq<MetricItem>, experiments: Seq<ExperimentItem>)
    requires
        image_fits(metrics, experiments),
    ensures
        image_at(image_bytes(metrics, experiments)) == Some((metrics, experiments)),
{
    let bytes = image_bytes(metrics, experiments);
    let first_count = u64_bytes(metrics.len() as u64);
    let first_list = list_bytes(metric_writer(), metrics);
    let second_count = u64_bytes(experiments.len() as u64);
    let second_list = list_bytes(experiment_writer(), experiments);
    let i1: int = 14;
    let i2: int = i1 + first_list.len() as int;
    let i3: int = i2 + 8;
    let end: int = i3 + second_list.len() as int;
    assert(header().len() == 6);
    lemma_le_bytes(metrics.len(), 8);
    lemma_le_bytes(experiments.len(), 8);
    assert(bytes.len() == end);
    lemma_holds_whole(bytes);
    lemma_holds_split(bytes, 0, header() + first_count + first_list + second_count, second_list);
    lemma_holds_split(bytes, 0, header() + first_count + first_list, second_count);
    lemma_holds_split(bytes, 0, header() + first_count, first_list);
    lemma_holds_split(bytes, 0, header(), first_count);
    assert(u64_at(bytes, 6) == Some((metrics.len() as u64, i1))) by {
        lemma_u64_at(bytes, 6, metrics.len() as u64);
    }
    assert(list_at(metric_reader(), bytes, i1, metrics.len()) == Some((metrics, i2))) by {
        lemma_metric_list_at(bytes, i1, metrics);
    }
    assert(u64_at(bytes, i2) == Some((experiments.len() as u64, i3))) by {
        lemma_u64_at(bytes, i2, experiments.len() as u64);
    }
    assert(list_at(experiment_reader(), bytes, i3, experiments.len()) == Some((experiments, end)))
        by {
        lemma_experiment_list_at(bytes, i3, experiments);
    }
}

} // verus!
