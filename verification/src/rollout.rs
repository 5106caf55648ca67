//! Rollout persistence rules and listing: which response items are written
//! to the durable transcript, the rollout filename and cursor formats, and
//! stable newest-first pagination over session keys.

use vstd::prelude::*;

verus! {

use crate::items::ResponseItem;
use crate::chars::lex_lt;
use crate::chars::lex_cmp;
use crate::chars::str_to_chars;
use crate::chars::chars_to_string;

/// Which items the rollout persists: user and assistant messages,
/// reasoning, function calls and outputs, local-shell calls, custom tool
/// calls and outputs, web-search calls, and sub-agent markers.
pub open spec fn spec_is_persisted(item: ResponseItem) -> bool {
    !(item is Other)
}

pub fn is_persisted_response_item(item: &ResponseItem) -> (r: bool)
    ensures
        r == spec_is_persisted(*item),
{
    match item {
        ResponseItem::Other => false,
        _ => true,
    }
}

/// The rollout's view of a history: the persisted items, in order.
pub open spec fn persisted_projection(items: Seq<ResponseItem>) -> Seq<ResponseItem> {
    items.filter(|item: ResponseItem| spec_is_persisted(item))
}

/// The projection distributes over appends: recording a batch appends its
/// projection, so the rollout is a prefix-preserving projection of the
/// history under the persistence policy.
pub proof fn lemma_rollout_projection_append(h: Seq<ResponseItem>, b: Seq<ResponseItem>)
    ensures
        persisted_projection(h + b) == persisted_projection(h) + persisted_projection(b),
        persisted_projection(h).is_prefix_of(persisted_projection(h + b)),
    decreases b.len(),
{
    let pred = |item: ResponseItem| spec_is_persisted(item);
    if b.len() == 0 {
        assert(h + b =~= h);
        assert(persisted_projection(b) =~= Seq::<ResponseItem>::empty());
        assert(persisted_projection(h) + persisted_projection(b) =~= persisted_projection(h));
    } else {
        lemma_rollout_projection_append(h, b.drop_last());
        assert((h + b).drop_last() =~= h + b.drop_last());
        reveal_with_fuel(Seq::filter, 2);
        assert((h + b).filter(pred) == if pred((h + b).last()) {
            (h + b.drop_last()).filter(pred).push(b.last())
        } else {
            (h + b.drop_last()).filter(pred)
        });
        assert(b.filter(pred) == if pred(b.last()) {
            b.drop_last().filter(pred).push(b.last())
        } else {
            b.drop_last().filter(pred)
        });
        if pred(b.last()) {
            assert((h.filter(pred) + b.drop_last().filter(pred)).push(b.last()) =~= h.filter(
                pred,
            ) + b.drop_last().filter(pred).push(b.last()));
        }
    }
    assert(persisted_projection(h).is_prefix_of(
        persisted_projection(h) + persisted_projection(b),
    ));
}

/// Keep exactly the persisted items, in order.
pub fn filter_persisted(items: Vec<ResponseItem>) -> (r: Vec<ResponseItem>)
    ensures
        r@ == persisted_projection(items@),
{
    let ghost pred = |item: ResponseItem| spec_is_persisted(item);
    let mut rest = items;
    let ghost all = rest@;
    let total = rest.len();
    let mut out: Vec<ResponseItem> = Vec::new();
    proof {
        assert(all.take(0) =~= Seq::<ResponseItem>::empty());
        assert(all.take(0).filter(pred) =~= Seq::<ResponseItem>::empty());
    }
    while rest.len() > 0
        invariant
            rest@.len() <= total,
            all.len() == total,
            rest@ == all.skip(total - rest@.len()),
            pred == (|item: ResponseItem| spec_is_persisted(item)),
            out@ == all.take(total - rest@.len()).filter(pred),
        decreases rest@.len(),
    {
        let ghost i = total - rest@.len();
        let item = rest.remove(0);
        proof {
            assert(item == all[i]);
            assert(rest@ =~= all.skip(i + 1));
            assert(all.take(i + 1).drop_last() =~= all.take(i));
            assert(all.take(i + 1).last() == all[i]);
            reveal_with_fuel(Seq::filter, 2);
        }
        let keep = is_persisted_response_item(&item);
        if keep {
            out.push(item);
        }
    }
    proof {
        assert(all.take(total as int) =~= all);
    }
    out
}

/// The listing key of one session file: its timestamp (encoded as the
/// digits of `YYYYMMDDHHMMSS`) and the uuid text of its filename.
#[derive(Debug, Clone, PartialEq)]
pub struct SessionKey {
    pub ts: u64,
    pub uuid: String,
}

/// Strict ordering of session keys: by timestamp, then by uuid text (the
/// canonical lowercase-hex form orders like the underlying value).
pub open spec fn key_lt(a: SessionKey, b: SessionKey) -> bool {
    a.ts < b.ts || (a.ts == b.ts && lex_lt(a.uuid@, b.uuid@))
}

pub fn clone_key(k: &SessionKey) -> (r: SessionKey)
    ensures
        r == *k,
{
    SessionKey { ts: k.ts, uuid: k.uuid.clone() }
}

/// Strict comparison of two keys.
pub fn key_lt_exec(a: &SessionKey, b: &SessionKey) -> (r: bool)
    ensures
        r == key_lt(*a, *b),
{
    if a.ts < b.ts {
        true
    } else if a.ts > b.ts {
        false
    } else {
        let av = str_to_chars(a.uuid.as_str());
        let bv = str_to_chars(b.uuid.as_str());
        let c = lex_cmp(&av, &bv);
        c == 0
    }
}

/// `x` is the maximum entry strictly below `bound` (no bound: the maximum).
pub open spec fn is_max_below(entries: Seq<SessionKey>, bound: Option<SessionKey>, x: SessionKey) -> bool {
    &&& exists|i: int| 0 <= i < entries.len() && entries[i] == x
    &&& (bound matches Some(c) ==> key_lt(x, c))
    &&& forall|i: int|
        0 <= i < entries.len() && (bound matches Some(c) ==> key_lt(#[trigger] entries[i], c))
            ==> !key_lt(x, entries[i])
}

/// Two keys that order the same way: equal timestamp and uuid text.
pub open spec fn keys_eq(a: SessionKey, b: SessionKey) -> bool {
    a.ts == b.ts && a.uuid@ == b.uuid@
}

/// Exactly one of `key_lt(a, b)`, `keys_eq(a, b)`, `key_lt(b, a)` holds.
pub proof fn lemma_key_trichotomy(a: SessionKey, b: SessionKey)
    ensures
        key_lt(a, b) || keys_eq(a, b) || key_lt(b, a),
        key_lt(a, b) ==> !keys_eq(a, b) && !key_lt(b, a),
        keys_eq(a, b) ==> !key_lt(a, b) && !key_lt(b, a),
{
    crate::chars::lemma_lex_trichotomy(a.uuid@, b.uuid@);
}

/// `key_lt` only reads the timestamp and the uuid text.
pub proof fn lemma_key_lt_congr(a: SessionKey, b: SessionKey, c: SessionKey)
    requires
        keys_eq(b, c),
    ensures
        key_lt(a, b) == key_lt(a, c),
        key_lt(b, a) == key_lt(c, a),
{
}

/// The bound as an owned key.
pub open spec fn deref_bound(bound: Option<&SessionKey>) -> Option<SessionKey> {
    match bound {
        Some(c) => Some(*c),
        None => None,
    }
}

/// The maximum entry strictly below `bound`, if any.
#[verifier::loop_isolation(false)]
fn max_below(entries: &Vec<SessionKey>, bound: Option<&SessionKey>) -> (r: Option<SessionKey>)
    ensures
        (r matches Some(x) ==> is_max_below(entries@, deref_bound(bound), x)),
        (r is None ==> (match deref_bound(bound) {
            Some(c) => forall|i: int|
                0 <= i < entries@.len() ==> !key_lt(#[trigger] entries@[i], c),
            None => entries@.len() == 0,
        })),
{
    let ghost gbound = deref_bound(bound);
    let mut best: Option<SessionKey> = None;
    let mut i: usize = 0;
    while i < entries.len()
        invariant
            i <= entries@.len(),
            match best {
                Some(x) => {
                    &&& exists|k: int| 0 <= k < i && entries@[k] == x
                    &&& (gbound matches Some(c) ==> key_lt(x, c))
                    &&& forall|k: int|
                        0 <= k < i && (gbound matches Some(c) ==> key_lt(
                            #[trigger] entries@[k],
                            c,
                        )) ==> !key_lt(x, entries@[k])
                },
                None => (match gbound {
                    Some(c) => forall|k: int|
                        0 <= k < i ==> !key_lt(#[trigger] entries@[k], c),
                    None => i == 0,
                }),
            },
        decreases entries@.len() - i,
    {
        let e = &entries[i];
        let under_bound = match bound {
            Some(c) => key_lt_exec(e, c),
            None => true,
        };
        if under_bound {
            let better = match &best {
                Some(x) => key_lt_exec(x, e),
                None => true,
            };
            if better {
                let ghost prev = best;
                best = Some(clone_key(e));
                proof {
                    let x = best->Some_0;
                    assert(x == entries@[i as int]);
                    assert forall|k: int|
                        0 <= k < i + 1 && (gbound matches Some(c) ==> key_lt(
                            #[trigger] entries@[k],
                            c,
                        )) implies !key_lt(x, entries@[k]) by {
                        if k == i {
                            lemma_key_trichotomy(x, x);
                        } else {
                            match prev {
                                Some(p) => {
                                    // entries[k] is at most the previous best,
                                    // which is strictly below the new one.
                                    assert(!key_lt(p, entries@[k]));
                                    assert(key_lt(p, x));
                                    if key_lt(x, entries@[k]) {
                                        lemma_key_trichotomy(p, entries@[k]);
                                        if keys_eq(p, entries@[k]) {
                                            lemma_key_lt_congr(x, p, entries@[k]);
                                            lemma_key_trichotomy(p, x);
                                        } else {
                                            lemma_key_lt_trans(x, entries@[k], p);
                                            lemma_key_trichotomy(p, x);
                                        }
                                    }
                                },
                                None => {
                                },
                            }
                        }
                    }
                }
            } else {
                proof {
                    if let Some(x) = &best {
                        assert(!key_lt(*x, entries@[i as int]));
                        assert forall|k: int|
                            0 <= k < i + 1 && (gbound matches Some(c) ==> key_lt(
                                #[trigger] entries@[k],
                                c,
                            )) implies !key_lt(*x, entries@[k]) by {}
                    }
                }
            }
        } else {
            proof {
                if let Some(x) = &best {
                    assert forall|k: int|
                        0 <= k < i + 1 && (gbound matches Some(c) ==> key_lt(
                            #[trigger] entries@[k],
                            c,
                        )) implies !key_lt(*x, entries@[k]) by {}
                }
            }
        }
        i = i + 1;
    }
    proof {
        if let Some(x) = &best {
            assert(exists|k: int| 0 <= k < entries@.len() && entries@[k] == *x);
            assert(gbound matches Some(c) ==> key_lt(*x, c));
            assert(forall|k: int|
                0 <= k < entries@.len() && (gbound matches Some(c) ==> key_lt(
                    #[trigger] entries@[k],
                    c,
                )) ==> !key_lt(*x, entries@[k]));
            assert(is_max_below(entries@, gbound, *x));
        }
    }
    best
}

/// Every entry strictly below the cursor (every entry, when there is no
/// cursor) is represented in the page by an equal key.
pub open spec fn page_complete(
    entries: Seq<SessionKey>,
    cursor: Option<SessionKey>,
    page: Seq<SessionKey>,
) -> bool {
    forall|i: int|
        0 <= i < entries.len() && (cursor matches Some(c) ==> key_lt(#[trigger] entries[i], c))
            ==> exists|k: int| 0 <= k < page.len() && keys_eq(entries[i], page[k])
}

/// One page of the session listing: up to `page_size` keys, newest first,
/// strictly decreasing, all strictly older than the cursor. The cursor names
/// the last key of the previous page and is itself excluded. A page shorter
/// than `page_size` is complete: every remaining key appears in it.
#[verifier::loop_isolation(false)]
pub fn list_page(entries: &Vec<SessionKey>, page_size: usize, cursor: Option<&SessionKey>) -> (page:
    Vec<SessionKey>)
    ensures
        page@.len() <= page_size,
        forall|a: int, b: int|
            0 <= a < b < page@.len() ==> key_lt(#[trigger] page@[b], #[trigger] page@[a]),
        forall|k: int|
            0 <= k < page@.len() ==> exists|i: int|
                0 <= i < entries@.len() && entries@[i] == #[trigger] page@[k],
        (cursor matches Some(c) ==> forall|k: int|
            0 <= k < page@.len() ==> key_lt(#[trigger] page@[k], *c)),
        page@.len() > 0 ==> is_max_below(entries@, match cursor {
            Some(c) => Some(*c),
            None => None::<SessionKey>,
        }, page@[0]),
        forall|k: int|
            1 <= k < page@.len() ==> is_max_below(entries@, Some(page@[k - 1]), #[trigger] page@[k]),
        page@.len() < page_size ==> page_complete(entries@, match cursor {
            Some(c) => Some(*c),
            None => None::<SessionKey>,
        }, page@),
{
    let mut page: Vec<SessionKey> = Vec::new();
    let mut boundary: Option<SessionKey> = match cursor {
        Some(c) => Some(clone_key(c)),
        None => None,
    };
    let ghost gcursor = match cursor {
        Some(c) => Some(*c),
        None => None::<SessionKey>,
    };
    while page.len() < page_size
        invariant
            page@.len() <= page_size,
            boundary == (if page@.len() == 0 {
                gcursor
            } else {
                Some(page@.last())
            }),
            forall|a: int, b: int|
                0 <= a < b < page@.len() ==> key_lt(#[trigger] page@[b], #[trigger] page@[a]),
            forall|k: int|
                0 <= k < page@.len() ==> exists|i: int|
                    0 <= i < entries@.len() && entries@[i] == #[trigger] page@[k],
            (gcursor matches Some(c) ==> forall|k: int|
                0 <= k < page@.len() ==> key_lt(#[trigger] page@[k], c)),
            page@.len() > 0 ==> is_max_below(entries@, gcursor, page@[0]),
            forall|k: int|
                1 <= k < page@.len() ==> is_max_below(
                    entries@,
                    Some(page@[k - 1]),
                    #[trigger] page@[k],
                ),
            forall|i: int|
                0 <= i < entries@.len() && (gcursor matches Some(c) ==> key_lt(
                    #[trigger] entries@[i],
                    c,
                )) ==> (exists|k: int| 0 <= k < page@.len() && keys_eq(entries@[i], page@[k])) || (
                match boundary {
                    Some(b) => key_lt(entries@[i], b),
                    None => true,
                }),
        decreases page_size - page@.len(),
    {
        let next = match &boundary {
            Some(b) => max_below(entries, Some(b)),
            None => max_below(entries, None),
        };
        match next {
            Some(x) => {
                let ghost page0 = page@;
                let ghost bnd = boundary;
                boundary = Some(clone_key(&x));
                page.push(x);
                proof {
                    assert(page@.last() == x);
                    assert forall|a: int, b: int|
                        0 <= a < b < page@.len() implies key_lt(
                        #[trigger] page@[b],
                        #[trigger] page@[a],
                    ) by {
                        if b == page@.len() - 1 && page0.len() > 0 {
                            assert(key_lt(x, page0[page0.len() - 1]));
                            if a < page0.len() - 1 {
                                assert(key_lt(page0[page0.len() - 1], page0[a]));
                                lemma_key_lt_trans(x, page0[page0.len() - 1], page0[a]);
                            }
                        }
                    }
                    if let Some(c) = gcursor {
                        assert forall|k: int| 0 <= k < page@.len() implies key_lt(
                            #[trigger] page@[k],
                            c,
                        ) by {
                            if k == page@.len() - 1 && page0.len() > 0 {
                                assert(key_lt(x, page0[page0.len() - 1]));
                                assert(key_lt(page0[page0.len() - 1], c));
                                lemma_key_lt_trans(x, page0[page0.len() - 1], c);
                            }
                        }
                    }
                    // Every pending key is now in the page or below the new
                    // boundary.
                    assert forall|i: int|
                        0 <= i < entries@.len() && (gcursor matches Some(c) ==> key_lt(
                            #[trigger] entries@[i],
                            c,
                        )) implies (exists|k: int|
                        0 <= k < page@.len() && keys_eq(entries@[i], page@[k])) || key_lt(
                        entries@[i],
                        x,
                    ) by {
                        let e = entries@[i];
                        if exists|k: int| 0 <= k < page0.len() && keys_eq(e, page0[k]) {
                            let k = choose|k: int| 0 <= k < page0.len() && keys_eq(e, page0[k]);
                            assert(page@[k] == page0[k]);
                        } else {
                            assert(!key_lt(x, e)) by {
                                if let Some(b) = bnd {
                                    assert(key_lt(e, b));
                                }
                            }
                            lemma_key_trichotomy(e, x);
                            if keys_eq(e, x) {
                                assert(page@[page@.len() - 1] == x);
                            }
                        }
                    }
                }
            },
            None => {
                proof {
                    if let Some(b) = &boundary {
                        assert forall|i: int|
                            0 <= i < entries@.len() && (gcursor matches Some(c) ==> key_lt(
                                #[trigger] entries@[i],
                                c,
                            )) implies exists|k: int|
                            0 <= k < page@.len() && keys_eq(entries@[i], page@[k]) by {
                            assert(!key_lt(entries@[i], *b));
                        }
                    } else {
                        assert(entries@.len() == 0);
                    }
                }
                return page;
            },
        }
    }
    page
}

/// Pages are strictly ordered across a cursor: every key of the next page
/// (fetched with the previous page's last key as cursor) is strictly older
/// than every key of the previous page.
pub proof fn lemma_pagination_order(prev: Seq<SessionKey>, next: Seq<SessionKey>)
    requires
        prev.len() > 0,
        forall|a: int, b: int| 0 <= a < b < prev.len() ==> key_lt(#[trigger] prev[b], #[trigger] prev[a]),
        forall|k: int| 0 <= k < next.len() ==> key_lt(#[trigger] next[k], prev[prev.len() - 1]),
    ensures
        forall|j: int, k: int|
            0 <= j < prev.len() && 0 <= k < next.len() ==> key_lt(#[trigger] next[k], #[trigger] prev[j]),
{
    assert forall|j: int, k: int|
        0 <= j < prev.len() && 0 <= k < next.len() implies key_lt(
        #[trigger] next[k],
        #[trigger] prev[j],
    ) by {
        if j < prev.len() - 1 {
            assert(key_lt(prev[prev.len() - 1], prev[j]));
            lemma_key_lt_trans(next[k], prev[prev.len() - 1], prev[j]);
        }
    }
}

pub proof fn lemma_key_lt_trans(a: SessionKey, b: SessionKey, c: SessionKey)
    requires
        key_lt(a, b),
        key_lt(b, c),
    ensures
        key_lt(a, c),
{
    if a.ts == b.ts && b.ts == c.ts {
        crate::chars::lemma_lex_lt_trans(a.uuid@, b.uuid@, c.uuid@);
    }
}

/// A decimal digit position.
pub open spec fn dv(c: char) -> int {
    c as u32 - 48
}

pub open spec fn is_digit(c: char) -> bool {
    48 <= c as u32 && c as u32 <= 57
}

/// A well-formed rollout timestamp: `YYYY-MM-DDTHH-MM-SS`.
pub open spec fn wf_ts(s: Seq<char>) -> bool {
    &&& s.len() == 19
    &&& is_digit(s[0]) && is_digit(s[1]) && is_digit(s[2]) && is_digit(s[3])
    &&& s[4] == '-'
    &&& is_digit(s[5]) && is_digit(s[6])
    &&& s[7] == '-'
    &&& is_digit(s[8]) && is_digit(s[9])
    &&& s[10] == 'T'
    &&& is_digit(s[11]) && is_digit(s[12])
    &&& s[13] == '-'
    &&& is_digit(s[14]) && is_digit(s[15])
    &&& s[16] == '-'
    &&& is_digit(s[17]) && is_digit(s[18])
}

/// The digits of a well-formed timestamp, read as one number.
pub open spec fn ts_value(s: Seq<char>) -> int {
    dv(s[0]) * 10000000000000 + dv(s[1]) * 1000000000000 + dv(s[2]) * 100000000000 + dv(s[3])
        * 10000000000 + dv(s[5]) * 1000000000 + dv(s[6]) * 100000000 + dv(s[8]) * 10000000 + dv(
        s[9],
    ) * 1000000 + dv(s[11]) * 100000 + dv(s[12]) * 10000 + dv(s[14]) * 1000 + dv(s[15]) * 100 + dv(
        s[17],
    ) * 10 + dv(s[18])
}

/// Parse a rollout timestamp into its numeric key.
pub fn parse_ts(s: &str) -> (r: Option<u64>)
    ensures
        match r {
            Some(v) => wf_ts(s@) && v == ts_value(s@),
            None => !wf_ts(s@),
        },
{
    let cs = str_to_chars(s);
    if cs.len() != 19 {
        return None;
    }
    if !is_digit_exec(cs[0]) {
        return None;
    }
    if !is_digit_exec(cs[1]) {
        return None;
    }
    if !is_digit_exec(cs[2]) {
        return None;
    }
    if !is_digit_exec(cs[3]) {
        return None;
    }
    if !is_digit_exec(cs[5]) {
        return None;
    }
    if !is_digit_exec(cs[6]) {
        return None;
    }
    if !is_digit_exec(cs[8]) {
        return None;
    }
    if !is_digit_exec(cs[9]) {
        return None;
    }
    if !is_digit_exec(cs[11]) {
        return None;
    }
    if !is_digit_exec(cs[12]) {
        return None;
    }
    if !is_digit_exec(cs[14]) {
        return None;
    }
    if !is_digit_exec(cs[15]) {
        return None;
    }
    if !is_digit_exec(cs[17]) {
        return None;
    }
    if !is_digit_exec(cs[18]) {
        return None;
    }
    if cs[4] != '-' {
        return None;
    }
    if cs[7] != '-' {
        return None;
    }
    if cs[10] != 'T' {
        return None;
    }
    if cs[13] != '-' {
        return None;
    }
    if cs[16] != '-' {
        return None;
    }
    let mut v: u64 = 0;
    v = v * 10 + dvx(cs[0]);
    v = v * 10 + dvx(cs[1]);
    v = v * 10 + dvx(cs[2]);
    v = v * 10 + dvx(cs[3]);
    v = v * 10 + dvx(cs[5]);
    v = v * 10 + dvx(cs[6]);
    v = v * 10 + dvx(cs[8]);
    v = v * 10 + dvx(cs[9]);
    v = v * 10 + dvx(cs[11]);
    v = v * 10 + dvx(cs[12]);
    v = v * 10 + dvx(cs[14]);
    v = v * 10 + dvx(cs[15]);
    v = v * 10 + dvx(cs[17]);
    v = v * 10 + dvx(cs[18]);
    proof {
        assert(v == ts_value(s@));
    }
    Some(v)
}

fn is_digit_exec(c: char) -> (r: bool)
    ensures
        r == is_digit(c),
{
    let u = c as u32;
    48 <= u && u <= 57
}

fn dvx(c: char) -> (r: u64)
    requires
        is_digit(c),
    ensures
        r == dv(c),
        r <= 9,
{
    (c as u32 - 48) as u64
}

/// A well-formed hyphenated uuid: 36 characters, hyphens at the standard
/// positions, hex digits elsewhere.
pub open spec fn wf_uuid(s: Seq<char>) -> bool {
    &&& s.len() == 36
    &&& forall|i: int|
        0 <= i < 36 ==> (if i == 8 || i == 13 || i == 18 || i == 23 {
            #[trigger] s[i] == '-'
        } else {
            is_hex(s[i])
        })
}

pub open spec fn is_hex(c: char) -> bool {
    ||| (48 <= c as u32 && c as u32 <= 57)
    ||| (97 <= c as u32 && c as u32 <= 102)
    ||| (65 <= c as u32 && c as u32 <= 70)
}

/// Validate a uuid's shape.
pub fn check_uuid(s: &str) -> (r: bool)
    ensures
        r == wf_uuid(s@),
{
    let cs = str_to_chars(s);
    if cs.len() != 36 {
        return false;
    }
    let mut i: usize = 0;
    while i < 36
        invariant
            i <= 36,
            cs@ == s@,
            cs@.len() == 36,
            forall|k: int|
                0 <= k < i ==> (if k == 8 || k == 13 || k == 18 || k == 23 {
                    #[trigger] s@[k] == '-'
                } else {
                    is_hex(s@[k])
                }),
        decreases 36 - i,
    {
        let c = cs[i];
        let u = c as u32;
        if i == 8 || i == 13 || i == 18 || i == 23 {
            if c != '-' {
                return false;
            }
        } else {
            if !((48 <= u && u <= 57) || (97 <= u && u <= 102) || (65 <= u && u <= 70)) {
                return false;
            }
        }
        i = i + 1;
    }
    true
}

/// A well-formed rollout filename: `rollout-<ts>-<uuid>.jsonl`.
pub open spec fn wf_rollout_filename(s: Seq<char>) -> bool {
    &&& s.len() == 8 + 19 + 1 + 36 + 6
    &&& s.subrange(0, 8) == "rollout-"@
    &&& wf_ts(s.subrange(8, 27))
    &&& s[27] == '-'
    &&& wf_uuid(s.subrange(28, 64))
    &&& s.subrange(64, 70) == ".jsonl"@
}

/// Parse a rollout filename into its session key.
pub fn parse_rollout_filename(name: &str) -> (r: Option<SessionKey>)
    ensures
        match r {
            Some(k) => wf_rollout_filename(name@) && k.ts == ts_value(name@.subrange(8, 27))
                && k.uuid@ == name@.subrange(28, 64),
            None => !wf_rollout_filename(name@),
        },
{
    let cs = str_to_chars(name);
    if cs.len() != 70 {
        return None;
    }
    let prefix = crate::chars::vec_subrange(&cs, 0, 8);
    let dashes = str_to_chars("rollout-");
    let pc = lex_cmp(&prefix, &dashes);
    if pc != 1 {
        return None;
    }
    let suffix = crate::chars::vec_subrange(&cs, 64, 70);
    let jsonl = str_to_chars(".jsonl");
    let sc = lex_cmp(&suffix, &jsonl);
    if sc != 1 {
        return None;
    }
    if cs[27] != '-' {
        return None;
    }
    let ts_part = crate::chars::vec_subrange(&cs, 8, 27);
    let ts_s = chars_to_string(&ts_part);
    let ts = match parse_ts(ts_s.as_str()) {
        Some(v) => v,
        None => {
            return None;
        },
    };
    let uuid_part = crate::chars::vec_subrange(&cs, 28, 64);
    let uuid_s = chars_to_string(&uuid_part);
    if !check_uuid(uuid_s.as_str()) {
        return None;
    }
    Some(SessionKey { ts, uuid: uuid_s })
}

} // verus!
