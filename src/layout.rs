use vstd::prelude::*;

use crate::config::{
    after_comma, block, camera_key, entries, entry, lemma_entry_advances, name_key, no_slots,
    renderables_key, ConfigModel, GenErrorModel, SlotsModel,
};
use crate::token::{ident_text, is_close, is_ident, is_open, is_punct, Delim, Token};

verus! {

/// `t` is `{`, some content, `}`.
pub open spec fn framed(t: Seq<Token>) -> bool {
    t.len() >= 2 && is_open(t, 0, Delim::Brace) && is_close(t, t.len() - 1, Delim::Brace)
}

/// What the entry starting at `s` reads when no field has been read yet.
pub open spec fn fresh_entry(t: Seq<Token>, s: int) -> Result<(SlotsModel, int), GenErrorModel> {
    entry(t, s, t.len() - 1, no_slots())
}

/// The key of the entry starting at `s`.
pub open spec fn key_at(t: Seq<Token>, s: int) -> Seq<char> {
    ident_text(t, s)
}

/// The first `n` entries of the framed block `t` are well formed and begin at `starts[0..n]`:
/// the first just after `{`, each next one where the previous one and its optional `,`
/// ended. `starts[n]` is where the walk stands after them.
pub open spec fn laid_out(t: Seq<Token>, starts: Seq<int>, n: int) -> bool {
    &&& framed(t)
    &&& 0 <= n
    &&& starts.len() == n + 1
    &&& starts[0] == 1
    &&& forall|i: int|
        0 <= i < n ==> {
            &&& 1 <= #[trigger] starts[i] < t.len() - 1
            &&& fresh_entry(t, starts[i]) is Ok
            &&& starts[i + 1] == after_comma(t, fresh_entry(t, starts[i])->Ok_0.1, t.len() - 1)
        }
}

/// No key occurs twice among the first `n` entries.
pub open spec fn keys_distinct(t: Seq<Token>, starts: Seq<int>, n: int) -> bool {
    forall|i: int, j: int|
        0 <= i < n && 0 <= j < n && i != j ==> key_at(t, #[trigger] starts[i]) != key_at(
            t,
            #[trigger] starts[j],
        )
}

/// Some one of the first `n` entries has key `k`.
pub open spec fn has_field(t: Seq<Token>, starts: Seq<int>, n: int, k: Seq<char>) -> bool {
    exists|i: int| 0 <= i < n && key_at(t, #[trigger] starts[i]) == k
}

pub open spec fn slot_filled(st: SlotsModel, k: Seq<char>) -> bool {
    if k == name_key() {
        st.name is Some
    } else if k == renderables_key() {
        st.renderables is Some
    } else if k == camera_key() {
        st.camera is Some
    } else {
        false
    }
}

/// The fields of `st`, with those that `f` holds taken from `f`.
pub open spec fn merge(st: SlotsModel, f: SlotsModel) -> SlotsModel {
    SlotsModel {
        name: if f.name is Some {
            f.name
        } else {
            st.name
        },
        renderables: if f.renderables is Some {
            f.renderables
        } else {
            st.renderables
        },
        camera: if f.camera is Some {
            f.camera
        } else {
            st.camera
        },
    }
}

/// The fields read after the first `n` entries.
pub open spec fn slots_after(t: Seq<Token>, starts: Seq<int>, n: int) -> SlotsModel
    decreases n,
{
    if n <= 0 {
        no_slots()
    } else {
        merge(slots_after(t, starts, n - 1), fresh_entry(t, starts[n - 1])->Ok_0.0)
    }
}

proof fn lemma_keys_differ()
    ensures
        name_key() != renderables_key(),
        name_key() != camera_key(),
        renderables_key() != camera_key(),
{
    assert(name_key().len() != renderables_key().len());
    assert(name_key().len() != camera_key().len());
    assert(renderables_key().len() != camera_key().len());
}

/// A well-formed entry fills exactly the field of its key, and reads the same into any
/// fields where that one is still empty.
proof fn lemma_entry_fills_its_slot(t: Seq<Token>, s: int, st: SlotsModel)
    requires
        0 <= s < t.len() - 1,
        fresh_entry(t, s) is Ok,
        !slot_filled(st, key_at(t, s)),
    ensures
        key_at(t, s) == name_key() || key_at(t, s) == renderables_key() || key_at(t, s)
            == camera_key(),
        ({
            let f = fresh_entry(t, s)->Ok_0.0;
            &&& f.name is Some <==> key_at(t, s) == name_key()
            &&& f.renderables is Some <==> key_at(t, s) == renderables_key()
            &&& f.camera is Some <==> key_at(t, s) == camera_key()
        }),
        entry(t, s, t.len() - 1, st) == Ok::<(SlotsModel, int), GenErrorModel>(
            (merge(st, fresh_entry(t, s)->Ok_0.0), fresh_entry(t, s)->Ok_0.1),
        ),
{
    lemma_keys_differ();
}

proof fn lemma_slots_after(t: Seq<Token>, starts: Seq<int>, n: int)
    requires
        laid_out(t, starts, n),
        keys_distinct(t, starts, n),
    ensures
        forall|k: Seq<char>|
            #![trigger slot_filled(slots_after(t, starts, n), k)]
            #![trigger has_field(t, starts, n, k)]
            (k == name_key() || k == renderables_key() || k == camera_key()) ==> (slot_filled(
                slots_after(t, starts, n),
                k,
            ) <==> has_field(t, starts, n, k)),
        forall|i: int|
            #![trigger starts[i]]
            0 <= i < n ==> {
                let f = fresh_entry(t, starts[i])->Ok_0.0;
                let st = slots_after(t, starts, n);
                &&& key_at(t, starts[i]) == name_key() ==> st.name == f.name
                &&& key_at(t, starts[i]) == renderables_key() ==> st.renderables == f.renderables
                &&& key_at(t, starts[i]) == camera_key() ==> st.camera == f.camera
            },
    decreases n,
{
    lemma_keys_differ();
    if n > 0 {
        let prev = starts.take(n);
        assert(laid_out(t, prev, n - 1));
        assert(keys_distinct(t, prev, n - 1));
        lemma_slots_after(t, prev, n - 1);
        assert(slots_after(t, prev, n - 1) == slots_after(t, starts, n - 1)) by {
            lemma_slots_after_prefix(t, starts, prev, n - 1);
        }
        let s = starts[n - 1];
        let key = key_at(t, s);
        assert(forall|k: Seq<char>|
            #[trigger] has_field(t, prev, n - 1, k) <==> has_field(t, starts, n - 1, k)) by {
            assert forall|k: Seq<char>|
                #[trigger] has_field(t, starts, n - 1, k) implies has_field(t, prev, n - 1, k) by {
                let i = choose|i: int| 0 <= i < n - 1 && key_at(t, #[trigger] starts[i]) == k;
                assert(prev[i] == starts[i]);
            }
        }
        assert(!has_field(t, starts, n - 1, key)) by {
            if has_field(t, starts, n - 1, key) {
                let i = choose|i: int| 0 <= i < n - 1 && key_at(t, #[trigger] starts[i]) == key;
                assert(key_at(t, starts[i]) != key_at(t, starts[n - 1]));
            }
        }
        lemma_entry_fills_its_slot(t, s, slots_after(t, starts, n - 1));
        assert forall|k: Seq<char>|
            (k == name_key() || k == renderables_key() || k == camera_key()) implies (slot_filled(
                slots_after(t, starts, n),
                k,
            ) <==> has_field(t, starts, n, k)) by {
            let f = fresh_entry(t, s)->Ok_0.0;
            assert(slots_after(t, starts, n) == merge(slots_after(t, starts, n - 1), f));
            assert(slot_filled(slots_after(t, prev, n - 1), k) <==> has_field(t, prev, n - 1, k));
            assert(has_field(t, prev, n - 1, k) <==> has_field(t, starts, n - 1, k));
            assert(slot_filled(f, k) <==> k == key);
            if has_field(t, starts, n, k) && !has_field(t, starts, n - 1, k) {
                let i = choose|i: int| 0 <= i < n && key_at(t, #[trigger] starts[i]) == k;
                assert(i == n - 1);
            }
            if has_field(t, starts, n - 1, k) {
                let i = choose|i: int| 0 <= i < n - 1 && key_at(t, #[trigger] starts[i]) == k;
                assert(0 <= i < n && key_at(t, starts[i]) == k);
            }
            if k == key {
                assert(0 <= n - 1 < n && key_at(t, starts[n - 1]) == k);
            }
        }
        assert forall|i: int| 0 <= i < n implies {
            let f = fresh_entry(t, #[trigger] starts[i])->Ok_0.0;
            let st = slots_after(t, starts, n);
            &&& key_at(t, starts[i]) == name_key() ==> st.name == f.name
            &&& key_at(t, starts[i]) == renderables_key() ==> st.renderables == f.renderables
            &&& key_at(t, starts[i]) == camera_key() ==> st.camera == f.camera
        } by {
            if i < n - 1 {
                assert(prev[i] == starts[i]);
                assert(key_at(t, starts[i]) != key);
            }
        }
    }
}

proof fn lemma_slots_after_prefix(t: Seq<Token>, a: Seq<int>, b: Seq<int>, n: int)
    requires
        0 <= n,
        n <= a.len(),
        n <= b.len(),
        forall|i: int| 0 <= i < n ==> a[i] == b[i],
    ensures
        slots_after(t, a, n) == slots_after(t, b, n),
    decreases n,
{
    if n > 0 {
        lemma_slots_after_prefix(t, a, b, n - 1);
    }
}

pub open spec fn known_key(k: Seq<char>) -> bool {
    k == name_key() || k == renderables_key() || k == camera_key()
}

/// Walking the first `n` entries of a laid-out block leaves the walk at `starts[n]` with the
/// fields they name.
proof fn lemma_walk(t: Seq<Token>, starts: Seq<int>, n: int)
    requires
        laid_out(t, starts, n),
        keys_distinct(t, starts, n),
    ensures
        entries(t, 1, t.len() - 1, no_slots()) == entries(
            t,
            starts[n],
            t.len() - 1,
            slots_after(t, starts, n),
        ),
    decreases n,
{
    if n > 0 {
        let end = t.len() - 1;
        let prev = starts.take(n);
        assert(laid_out(t, prev, n - 1));
        assert(keys_distinct(t, prev, n - 1));
        lemma_walk(t, prev, n - 1);
        lemma_slots_after_prefix(t, starts, prev, n - 1);
        lemma_slots_after(t, prev, n - 1);
        let s = starts[n - 1];
        let key = key_at(t, s);
        let st = slots_after(t, starts, n - 1);
        if known_key(key) {
            if has_field(t, prev, n - 1, key) {
                let i = choose|i: int| 0 <= i < n - 1 && key_at(t, #[trigger] prev[i]) == key;
                assert(prev[i] == starts[i]);
                assert(key_at(t, starts[i]) != key_at(t, starts[n - 1]));
            }
            assert(!slot_filled(st, key));
        }
        lemma_entry_fills_its_slot(t, s, st);
        lemma_entry_advances(t, s, end, st);
        let p = fresh_entry(t, s)->Ok_0.1;
        assert(starts[n] == after_comma(t, p, end));
    }
}

/// A block of well-formed entries that name each of `name`, `renderables` and `camera`
/// exactly once, in any order, reads successfully, and each field holds what its entry
/// gives.
pub proof fn lemma_block_accepts_complete(t: Seq<Token>, starts: Seq<int>)
    requires
        laid_out(t, starts, 3),
        keys_distinct(t, starts, 3),
        starts[3] == t.len() - 1,
    ensures
        block(t) is Ok,
        forall|i: int|
            #![trigger starts[i]]
            0 <= i < 3 ==> {
                let f = fresh_entry(t, starts[i])->Ok_0.0;
                let c = block(t)->Ok_0;
                &&& key_at(t, starts[i]) == name_key() ==> f.name == Some(c.name)
                &&& key_at(t, starts[i]) == renderables_key() ==> f.renderables == Some(
                    c.renderables,
                )
                &&& key_at(t, starts[i]) == camera_key() ==> f.camera == Some(c.camera)
            },
{
    lemma_keys_differ();
    lemma_walk(t, starts, 3);
    lemma_slots_after(t, starts, 3);
    let k0 = key_at(t, starts[0]);
    let k1 = key_at(t, starts[1]);
    let k2 = key_at(t, starts[2]);
    lemma_entry_fills_its_slot(t, starts[0], no_slots());
    lemma_entry_fills_its_slot(t, starts[1], no_slots());
    lemma_entry_fills_its_slot(t, starts[2], no_slots());
    assert(k0 != k1 && k0 != k2 && k1 != k2);
    assert(has_field(t, starts, 3, name_key())) by {
        if k0 == name_key() {
            assert(key_at(t, starts[0]) == name_key());
        } else if k1 == name_key() {
            assert(key_at(t, starts[1]) == name_key());
        } else {
            assert(key_at(t, starts[2]) == name_key());
        }
    }
    assert(has_field(t, starts, 3, renderables_key())) by {
        if k0 == renderables_key() {
            assert(key_at(t, starts[0]) == renderables_key());
        } else if k1 == renderables_key() {
            assert(key_at(t, starts[1]) == renderables_key());
        } else {
            assert(key_at(t, starts[2]) == renderables_key());
        }
    }
    assert(has_field(t, starts, 3, camera_key())) by {
        if k0 == camera_key() {
            assert(key_at(t, starts[0]) == camera_key());
        } else if k1 == camera_key() {
            assert(key_at(t, starts[1]) == camera_key());
        } else {
            assert(key_at(t, starts[2]) == camera_key());
        }
    }
    let st = slots_after(t, starts, 3);
    assert(slot_filled(st, name_key()));
    assert(slot_filled(st, renderables_key()));
    assert(slot_filled(st, camera_key()));
}

/// The field that a block lacking some of `name`, `renderables` and `camera` is reported
/// as missing: the first lacking one, in that order.
pub open spec fn first_missing(t: Seq<Token>, starts: Seq<int>, n: int) -> Seq<char> {
    if !has_field(t, starts, n, name_key()) {
        name_key()
    } else if !has_field(t, starts, n, renderables_key()) {
        renderables_key()
    } else {
        camera_key()
    }
}

/// A block of well-formed entries with distinct keys that lacks one of `name`,
/// `renderables` and `camera` fails with `MissingField` naming it.
pub proof fn lemma_block_reports_missing(t: Seq<Token>, starts: Seq<int>, n: int)
    requires
        laid_out(t, starts, n),
        keys_distinct(t, starts, n),
        starts[n] == t.len() - 1,
        !(has_field(t, starts, n, name_key()) && has_field(t, starts, n, renderables_key())
            && has_field(t, starts, n, camera_key())),
    ensures
        block(t) == Err::<ConfigModel, GenErrorModel>(
            GenErrorModel::MissingField { field: first_missing(t, starts, n) },
        ),
{
    lemma_keys_differ();
    lemma_walk(t, starts, n);
    lemma_slots_after(t, starts, n);
    let st = slots_after(t, starts, n);
    assert(slot_filled(st, name_key()) <==> has_field(t, starts, n, name_key()));
    assert(slot_filled(st, renderables_key()) <==> has_field(t, starts, n, renderables_key()));
    assert(slot_filled(st, camera_key()) <==> has_field(t, starts, n, camera_key()));
}

/// After well-formed entries with distinct keys, an entry `key:` whose key one of them
/// already named fails with `DuplicateField` naming that key at that entry.
pub proof fn lemma_block_reports_duplicate(t: Seq<Token>, starts: Seq<int>, n: int)
    requires
        laid_out(t, starts, n),
        keys_distinct(t, starts, n),
        starts[n] + 1 < t.len() - 1,
        is_ident(t, starts[n]),
        is_punct(t, starts[n] + 1, ':'),
        has_field(t, starts, n, key_at(t, starts[n])),
    ensures
        block(t) == Err::<ConfigModel, GenErrorModel>(
            GenErrorModel::DuplicateField { field: key_at(t, starts[n]), at: starts[n] },
        ),
{
    lemma_keys_differ();
    lemma_walk(t, starts, n);
    lemma_slots_after(t, starts, n);
    let key = key_at(t, starts[n]);
    let i = choose|i: int| 0 <= i < n && key_at(t, #[trigger] starts[i]) == key;
    lemma_entry_fills_its_slot(t, starts[i], no_slots());
    let st = slots_after(t, starts, n);
    assert(slot_filled(st, key));
}

/// After well-formed entries with distinct keys, an entry `key:` whose key is none of
/// `name`, `renderables` and `camera` fails with `UnknownField` naming that key at that
/// entry.
pub proof fn lemma_block_reports_unknown(t: Seq<Token>, starts: Seq<int>, n: int)
    requires
        laid_out(t, starts, n),
        keys_distinct(t, starts, n),
        starts[n] + 1 < t.len() - 1,
        is_ident(t, starts[n]),
        is_punct(t, starts[n] + 1, ':'),
        !known_key(key_at(t, starts[n])),
    ensures
        block(t) == Err::<ConfigModel, GenErrorModel>(
            GenErrorModel::UnknownField { field: key_at(t, starts[n]), at: starts[n] },
        ),
{
    lemma_walk(t, starts, n);
}

} // verus!
