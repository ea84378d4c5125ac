//! Laws of the service, stated over the table model and the handler
//! contracts and proved once for all inputs.

use vstd::prelude::*;
use crate::item::{ItemModel, sanitized_model};
use crate::service::stamped;
use crate::store::{
    barcodes_unique, has_barcode, idx_of, lemma_idx_unique, lemma_unique_update_same, removed,
    replaced, row_for, touched,
};
use crate::numbers::{dec_of, digit_val, digits_val, is_digit, parse_u64};
use crate::routes::{last_segment, route_of, seg_start, Route};
use crate::text::{lemma_sanitized_clean, lemma_sanitized_idempotent, is_clean_char};
use crate::wire::{
    digits_fold, json_of_item, lemma_dec_of_digits, lemma_dec_of_fold, lemma_item_round_trip,
    parse_item, wire_safe, wire_safe_char,
};

verus! {

/// `digits_val` over an unbroken digit run is the run's folded value.
proof fn lemma_digits_val_all(s: Seq<char>, i: int, acc: nat)
    requires
        0 <= i <= s.len(),
        forall|t: int| i <= t < s.len() ==> is_digit(#[trigger] s[t]),
    ensures
        digits_val(s, i, acc) == Some(digits_fold(s.subrange(i, s.len() as int), acc)),
    decreases s.len() - i,
{
    if i < s.len() {
        let acc2 = (acc * 10 + digit_val(s[i])) as nat;
        lemma_digits_val_all(s, i + 1, acc2);
        assert(s.subrange(i, s.len() as int).drop_first() =~= s.subrange(i + 1, s.len() as int));
        assert(s.subrange(i, s.len() as int)[0] == s[i]);
    } else {
        assert(s.subrange(i, s.len() as int) =~= Seq::<char>::empty());
    }
}

/// Reading back a rendered barcode: the decimal rendering of any `u64`
/// parses to that value.
pub proof fn lemma_parse_u64_of_dec(b: u64)
    ensures
        parse_u64(dec_of(b as int)) == Some(b),
{
    let s = dec_of(b as int);
    lemma_dec_of_digits(b as int);
    assert(s[0] != '+') by {
        if s[0] == '+' {
            assert(is_digit(s[0]));
            vstd::utf8::char_u32_cast('+', '+' as u32);
        }
    }
    lemma_digits_val_all(s, 0, 0);
    assert(s.subrange(0, s.len() as int) =~= s);
    lemma_dec_of_fold(b as int, 0);
    assert(digits_fold(s, 0) == b);
}

/// The last segment of a path made of a prefix ending in a slash and a
/// slash-free tail is that tail.
proof fn lemma_seg_start_from(s: Seq<char>, j: int, k: int)
    requires
        0 < k <= j <= s.len(),
        s[k - 1] == '/',
        forall|t: int| k <= t < j ==> s[t] != '/',
    ensures
        seg_start(s, j) == k,
    decreases j,
{
    if j > k {
        lemma_seg_start_from(s, j - 1, k);
    }
}

/// No decimal digit is a slash.
proof fn lemma_digits_not_slash(s: Seq<char>)
    requires
        forall|t: int| 0 <= t < s.len() ==> is_digit(#[trigger] s[t]),
    ensures
        forall|t: int| 0 <= t < s.len() ==> (#[trigger] s[t]) != '/',
{
    assert forall|t: int| 0 <= t < s.len() implies (#[trigger] s[t]) != '/' by {
        if s[t] == '/' {
            assert(48 <= s[t] as u32 <= 57);
        }
    }
}

/// The paths the client builds lead to the matching service routes, and
/// the service reads back from them exactly the barcode the client put in.
pub proof fn lemma_client_paths_reach_routes(b: u64)
    ensures
        route_of("/item/"@ + dec_of(b as int)) == Route::OneItem,
        parse_u64(last_segment("/item/"@ + dec_of(b as int))) == Some(b),
        route_of("/delete/"@ + dec_of(b as int)) == Route::Delete,
        parse_u64(last_segment("/delete/"@ + dec_of(b as int))) == Some(b),
        route_of("/log/"@ + dec_of(b as int)) == Route::Log,
        parse_u64(last_segment("/log/"@ + dec_of(b as int))) == Some(b),
{
    reveal_strlit("/new");
    reveal_strlit("/all");
    reveal_strlit("/item/");
    reveal_strlit("/modify");
    reveal_strlit("/delete/");
    reveal_strlit("/log/");
    let d = dec_of(b as int);
    lemma_dec_of_digits(b as int);
    lemma_digits_not_slash(d);
    lemma_parse_u64_of_dec(b);

    let p1 = "/item/"@ + d;
    assert(p1.len() >= 7);
    assert(crate::routes::starts_with(p1, "/item/"@)) by {
        assert(p1.subrange(0, 6) =~= "/item/"@);
    }
    assert(p1 != "/new"@ && p1 != "/all"@);
    assert(route_of(p1) == Route::OneItem);
    assert(p1[5] == '/');
    lemma_seg_start_from(p1, p1.len() as int, 6);
    assert(last_segment(p1) =~= d);

    let p2 = "/delete/"@ + d;
    assert(p2.len() >= 9);
    assert(p2[1] == 'd');
    assert(!crate::routes::starts_with(p2, "/item/"@)) by {
        if crate::routes::starts_with(p2, "/item/"@) {
            assert(p2.subrange(0, 6)[1] == p2[1]);
        }
    }
    assert(crate::routes::starts_with(p2, "/delete/"@)) by {
        assert(p2.subrange(0, 8) =~= "/delete/"@);
    }
    assert(p2 != "/new"@ && p2 != "/all"@ && p2 != "/modify"@);
    assert(route_of(p2) == Route::Delete);
    assert(p2[7] == '/');
    lemma_seg_start_from(p2, p2.len() as int, 8);
    assert(last_segment(p2) =~= d);

    let p3 = "/log/"@ + d;
    assert(p3.len() >= 6);
    assert(p3[1] == 'l');
    assert(!crate::routes::starts_with(p3, "/item/"@)) by {
        if crate::routes::starts_with(p3, "/item/"@) {
            assert(p3.subrange(0, 6)[1] == p3[1]);
        }
    }
    assert(!crate::routes::starts_with(p3, "/delete/"@)) by {
        if crate::routes::starts_with(p3, "/delete/"@) {
            assert(p3.subrange(0, 8)[1] == p3[1]);
        }
    }
    assert(crate::routes::starts_with(p3, "/log/"@)) by {
        assert(p3.subrange(0, 5) =~= "/log/"@);
    }
    assert(p3 != "/new"@ && p3 != "/all"@ && p3 != "/modify"@) by {
        assert(p3[1] == 'l');
    }
    assert(route_of(p3) == Route::Log);
    assert(p3[4] == '/');
    lemma_seg_start_from(p3, p3.len() as int, 5);
    assert(last_segment(p3) =~= d);
}

/// A clean text is one the wire format spells losslessly: sanitization
/// leaves nothing but ASCII letters, digits and whitespace, all of which
/// have readable JSON spellings.
pub proof fn lemma_clean_is_wire_safe(s: Seq<char>)
    requires
        forall|i: int| 0 <= i < s.len() ==> is_clean_char(#[trigger] s[i]),
    ensures
        wire_safe(s),
{
    assert forall|i: int| 0 <= i < s.len() implies wire_safe_char(#[trigger] s[i]) by {
        let c = s[i];
        let v = c as u32;
        if v < 32 {
            vstd::utf8::char_u32_cast(c, v);
            if v == 9 {
                vstd::utf8::char_u32_cast('\t', 9);
            } else if v == 10 {
                vstd::utf8::char_u32_cast('\n', 10);
            } else if v == 12 {
                vstd::utf8::char_u32_cast('\u{c}', 12);
            } else {
                vstd::utf8::char_u32_cast('\r', 13);
            }
        }
    }
}

/// What a read serves for a stored row parses back to exactly the row's
/// sanitized form: a client that reads the served document recovers the
/// record the service holds, field for field.
pub proof fn lemma_served_item_rereads(m: ItemModel)
    ensures
        parse_item(json_of_item(sanitized_model(m))) == Some(sanitized_model(m)),
{
    lemma_served_fields_clean(m);
    lemma_clean_is_wire_safe(sanitized_model(m).name);
    lemma_clean_is_wire_safe(sanitized_model(m).location);
    lemma_item_round_trip(sanitized_model(m));
}

/// Sanitizing a record is idempotent: a record written clean comes back
/// from a second sanitization unchanged, so cleaning again on every read
/// never alters data that was cleaned at write time.
pub proof fn lemma_sanitized_model_idempotent(m: ItemModel)
    ensures
        sanitized_model(sanitized_model(m)) == sanitized_model(m),
{
    lemma_sanitized_idempotent(m.name);
    lemma_sanitized_idempotent(m.location);
}

/// Every text field a read serves is clean: whether or not a stored row was
/// sanitized when written, nothing but ASCII letters, digits and
/// whitespace leaves the service.
pub proof fn lemma_served_fields_clean(m: ItemModel)
    ensures
        forall|i: int| 0 <= i < sanitized_model(m).name.len() ==> is_clean_char(
            #[trigger] sanitized_model(m).name[i],
        ),
        forall|i: int| 0 <= i < sanitized_model(m).location.len() ==> is_clean_char(
            #[trigger] sanitized_model(m).location[i],
        ),
{
    lemma_sanitized_clean(m.name);
    lemma_sanitized_clean(m.location);
}

/// A table a fresh record was appended to still has no duplicate barcode.
pub proof fn lemma_unique_push(pre: Seq<ItemModel>, m: ItemModel)
    requires
        barcodes_unique(pre),
        !has_barcode(pre, m.barcode),
    ensures
        barcodes_unique(pre.push(m)),
{
    let post = pre.push(m);
    assert forall|i: int, j: int| 0 <= i < j < post.len() implies post[i].barcode
        != post[j].barcode by {
        if j < pre.len() {
            assert(pre[i].barcode != pre[j].barcode);
        } else {
            assert(post[j] == m);
            assert(post[i] == pre[i]);
        }
    }
}

/// Reading back what a create wrote: after a create stores the sanitized,
/// stamped record, the row its barcode finds is exactly that record, and
/// sanitizing it again on the way out returns it unchanged.
pub proof fn lemma_read_back_after_create(pre: Seq<ItemModel>, m: ItemModel, now: u64)
    requires
        barcodes_unique(pre),
        !has_barcode(pre, m.barcode),
    ensures
        has_barcode(pre.push(stamped(m, now)), m.barcode),
        row_for(pre.push(stamped(m, now)), m.barcode) == stamped(m, now),
        sanitized_model(row_for(pre.push(stamped(m, now)), m.barcode)) == stamped(m, now),
{
    let w = stamped(m, now);
    let post = pre.push(w);
    lemma_unique_push(pre, w);
    lemma_idx_unique(post, m.barcode, pre.len() as int);
    lemma_sanitized_model_idempotent(m);
}

/// Reading back what a modify wrote: after a modify overwrites the row
/// with the sanitized, stamped record, reading that barcode serves exactly
/// that record.
pub proof fn lemma_read_back_after_update(pre: Seq<ItemModel>, m: ItemModel, now: u64)
    requires
        barcodes_unique(pre),
        has_barcode(pre, m.barcode),
    ensures
        has_barcode(replaced(pre, stamped(m, now)), m.barcode),
        row_for(replaced(pre, stamped(m, now)), m.barcode) == stamped(m, now),
        sanitized_model(row_for(replaced(pre, stamped(m, now)), m.barcode)) == stamped(m, now),
        replaced(pre, stamped(m, now)).len() == pre.len(),
{
    let w = stamped(m, now);
    let i = idx_of(pre, m.barcode);
    let post = replaced(pre, w);
    lemma_unique_update_same(pre, i, w);
    lemma_idx_unique(post, m.barcode, i);
    lemma_sanitized_model_idempotent(m);
}

/// Deleting removes the barcode: once the row carrying `b` is deleted, no
/// row carries it, so a second delete of the same barcode reports it not
/// found.
pub proof fn lemma_delete_then_gone(pre: Seq<ItemModel>, b: u64)
    requires
        barcodes_unique(pre),
        has_barcode(pre, b),
    ensures
        !has_barcode(removed(pre, b), b),
        removed(pre, b).len() == pre.len() - 1,
{
    let i = idx_of(pre, b);
    let post = removed(pre, b);
    assert forall|j: int| 0 <= j < post.len() implies post[j].barcode != b by {
        if j < i {
            assert(post[j] == pre[j]);
        } else {
            assert(post[j] == pre[j + 1]);
        }
    }
}

/// Logging a sighting touches only the timestamp: the touched row keeps
/// its name, barcode and location, its `last_seen` becomes the call time,
/// and every other row is untouched.
pub proof fn lemma_log_touches_only_timestamp(pre: Seq<ItemModel>, b: u64, ts: u64)
    requires
        barcodes_unique(pre),
        has_barcode(pre, b),
    ensures
        touched(pre, b, ts).len() == pre.len(),
        has_barcode(touched(pre, b, ts), b),
        row_for(touched(pre, b, ts), b).name == row_for(pre, b).name,
        row_for(touched(pre, b, ts), b).barcode == row_for(pre, b).barcode,
        row_for(touched(pre, b, ts), b).location == row_for(pre, b).location,
        row_for(touched(pre, b, ts), b).last_seen == Some(ts),
        forall|j: int|
            0 <= j < pre.len() && j != idx_of(pre, b) ==> #[trigger] touched(pre, b, ts)[j]
                == pre[j],
{
    let i = idx_of(pre, b);
    let post = touched(pre, b, ts);
    lemma_unique_update_same(pre, i, ItemModel { last_seen: Some(ts), ..row_for(pre, b) });
    lemma_idx_unique(post, b, i);
}

} // verus!
