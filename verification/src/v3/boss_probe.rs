//! The ante gates on boss blinds, and the pool a boss is drawn from.

use vstd::prelude::*;
use vstd::string::StringSliceAdditionalSpecFns;

use crate::seed::{first_less_at, lex_less};
use crate::text::{bytes_eq, lemma_ascii_str_bytes};

verus! {

/// Whether the name's bytes are those of `lit`.
pub open spec fn is_named(name: &str, lit: &str) -> bool {
    name.spec_bytes() == lit.spec_bytes()
}

/// Bosses that first appear at ante 2.
pub open spec fn gated_until_2(name: &str) -> bool {
    is_named(name, "The Mouth") || is_named(name, "The Fish") || is_named(name, "The Wall")
        || is_named(name, "The House") || is_named(name, "The Mark") || is_named(name, "The Wheel")
        || is_named(name, "The Arm") || is_named(name, "The Water") || is_named(name, "The Needle")
        || is_named(name, "The Flint")
}

/// Whether boss `name` is locked at `ante`.
pub open spec fn spec_boss_locked(name: &str, ante: u32) -> bool {
    (ante < 2 && gated_until_2(name)) || (ante < 3 && (is_named(name, "The Tooth") || is_named(
        name,
        "The Eye",
    ))) || (ante < 4 && is_named(name, "The Plant")) || (ante < 5 && is_named(name, "The Serpent"))
        || (ante < 6 && is_named(name, "The Ox"))
}

fn named(name: &str, lit: &str) -> (r: bool)
    ensures
        r == is_named(name, lit),
{
    bytes_eq(name.as_bytes(), lit.as_bytes())
}

/// Whether boss `name` is locked at `ante`: some bosses only appear from
/// ante 2, 3, 4, 5 or 6 on.
pub fn is_boss_locked(name: &str, ante: u32) -> (r: bool)
    ensures
        r == spec_boss_locked(name, ante),
{
    if ante < 2 && (named(name, "The Mouth") || named(name, "The Fish") || named(name, "The Wall")
        || named(name, "The House") || named(name, "The Mark") || named(name, "The Wheel")
        || named(name, "The Arm") || named(name, "The Water") || named(name, "The Needle")
        || named(name, "The Flint")) {
        return true;
    }
    if ante < 3 && (named(name, "The Tooth") || named(name, "The Eye")) {
        return true;
    }
    if ante < 4 && named(name, "The Plant") {
        return true;
    }
    if ante < 5 && named(name, "The Serpent") {
        return true;
    }
    if ante < 6 && named(name, "The Ox") {
        return true;
    }
    false
}


/// The ante at which each gated boss first appears: The Mouth, The Fish,
/// The Wall, The House, The Mark, The Wheel, The Arm, The Water, The Needle
/// and The Flint at ante 2; The Tooth and The Eye at 3; The Plant at 4; The
/// Serpent at 5; The Ox at 6. Each is locked exactly before its ante, and
/// any other boss is never locked.
pub proof fn lemma_boss_gates(ante: u32, other: &str)
    requires
        forall|k: int|
            0 <= k < gated_names().len() ==> other.spec_bytes() != #[trigger] gated_names()[k].spec_bytes(),
    ensures
        spec_boss_locked("The Mouth", ante) == (ante < 2),
        spec_boss_locked("The Fish", ante) == (ante < 2),
        spec_boss_locked("The Wall", ante) == (ante < 2),
        spec_boss_locked("The House", ante) == (ante < 2),
        spec_boss_locked("The Mark", ante) == (ante < 2),
        spec_boss_locked("The Wheel", ante) == (ante < 2),
        spec_boss_locked("The Arm", ante) == (ante < 2),
        spec_boss_locked("The Water", ante) == (ante < 2),
        spec_boss_locked("The Needle", ante) == (ante < 2),
        spec_boss_locked("The Flint", ante) == (ante < 2),
        spec_boss_locked("The Tooth", ante) == (ante < 3),
        spec_boss_locked("The Eye", ante) == (ante < 3),
        spec_boss_locked("The Plant", ante) == (ante < 4),
        spec_boss_locked("The Serpent", ante) == (ante < 5),
        spec_boss_locked("The Ox", ante) == (ante < 6),
        !spec_boss_locked(other, ante),
{
    reveal_strlit("The Mouth");
    lemma_ascii_str_bytes("The Mouth");
    reveal_strlit("The Fish");
    lemma_ascii_str_bytes("The Fish");
    reveal_strlit("The Wall");
    lemma_ascii_str_bytes("The Wall");
    reveal_strlit("The House");
    lemma_ascii_str_bytes("The House");
    reveal_strlit("The Mark");
    lemma_ascii_str_bytes("The Mark");
    reveal_strlit("The Wheel");
    lemma_ascii_str_bytes("The Wheel");
    reveal_strlit("The Arm");
    lemma_ascii_str_bytes("The Arm");
    reveal_strlit("The Water");
    lemma_ascii_str_bytes("The Water");
    reveal_strlit("The Needle");
    lemma_ascii_str_bytes("The Needle");
    reveal_strlit("The Flint");
    lemma_ascii_str_bytes("The Flint");
    reveal_strlit("The Tooth");
    lemma_ascii_str_bytes("The Tooth");
    reveal_strlit("The Eye");
    lemma_ascii_str_bytes("The Eye");
    reveal_strlit("The Plant");
    lemma_ascii_str_bytes("The Plant");
    reveal_strlit("The Serpent");
    lemma_ascii_str_bytes("The Serpent");
    reveal_strlit("The Ox");
    lemma_ascii_str_bytes("The Ox");
    assert("The Mouth".spec_bytes()[4] != "The Tooth".spec_bytes()[4]);
    assert("The Mouth".spec_bytes()[4] != "The Plant".spec_bytes()[4]);
    assert("The House".spec_bytes()[4] != "The Tooth".spec_bytes()[4]);
    assert("The House".spec_bytes()[4] != "The Plant".spec_bytes()[4]);
    assert("The Wheel".spec_bytes()[4] != "The Tooth".spec_bytes()[4]);
    assert("The Wheel".spec_bytes()[4] != "The Plant".spec_bytes()[4]);
    assert("The Arm".spec_bytes()[4] != "The Eye".spec_bytes()[4]);
    assert("The Water".spec_bytes()[4] != "The Tooth".spec_bytes()[4]);
    assert("The Water".spec_bytes()[4] != "The Plant".spec_bytes()[4]);
    assert("The Flint".spec_bytes()[4] != "The Tooth".spec_bytes()[4]);
    assert("The Flint".spec_bytes()[4] != "The Plant".spec_bytes()[4]);
    assert("The Tooth".spec_bytes()[4] != "The Plant".spec_bytes()[4]);
    assert(gated_names()[0] == "The Mouth");
    assert(gated_names()[1] == "The Fish");
    assert(gated_names()[2] == "The Wall");
    assert(gated_names()[3] == "The House");
    assert(gated_names()[4] == "The Mark");
    assert(gated_names()[5] == "The Wheel");
    assert(gated_names()[6] == "The Arm");
    assert(gated_names()[7] == "The Water");
    assert(gated_names()[8] == "The Needle");
    assert(gated_names()[9] == "The Flint");
    assert(gated_names()[10] == "The Tooth");
    assert(gated_names()[11] == "The Eye");
    assert(gated_names()[12] == "The Plant");
    assert(gated_names()[13] == "The Serpent");
    assert(gated_names()[14] == "The Ox");
}

/// The fifteen gated bosses.
pub open spec fn gated_names() -> Seq<&'static str> {
    seq!["The Mouth", "The Fish", "The Wall", "The House", "The Mark", "The Wheel", "The Arm", "The Water", "The Needle", "The Flint", "The Tooth", "The Eye", "The Plant", "The Serpent", "The Ox"]
}

// ---------------------------------------------------------------------------
// The boss pool
// ---------------------------------------------------------------------------

/// Whether `a` comes no later than `b` in the byte order of strings: `a` is
/// a prefix of `b`, or they first differ where `a` has the smaller byte.
pub open spec fn bytes_le(a: Seq<u8>, b: Seq<u8>) -> bool {
    a.is_prefix_of(b) || lex_less(a, b)
}

/// Two sequences that differ somewhere before `m` first differ at some
/// position.
proof fn lemma_first_difference(a: Seq<u8>, b: Seq<u8>, m: int)
    requires
        0 <= m <= a.len(),
        m <= b.len(),
        a.subrange(0, m) != b.subrange(0, m),
    ensures
        exists|k: int|
            0 <= k < m && a.subrange(0, k) == b.subrange(0, k) && #[trigger] a[k] != b[k],
    decreases m,
{
    if m == 0 {
        assert(a.subrange(0, 0) =~= b.subrange(0, 0));
    } else if a.subrange(0, m - 1) == b.subrange(0, m - 1) {
        assert(a[m - 1] != b[m - 1]) by {
            if a[m - 1] == b[m - 1] {
                assert(a.subrange(0, m) =~= b.subrange(0, m)) by {
                    assert forall|i: int| 0 <= i < m implies a[i] == b[i] by {
                        if i < m - 1 {
                            assert(a.subrange(0, m - 1)[i] == b.subrange(0, m - 1)[i]);
                        }
                    }
                }
            }
        }
    } else {
        lemma_first_difference(a, b, m - 1);
    }
}

/// Byte order is total.
pub proof fn lemma_bytes_le_total(a: Seq<u8>, b: Seq<u8>)
    ensures
        bytes_le(a, b) || bytes_le(b, a),
{
    let m = if a.len() <= b.len() {
        a.len() as int
    } else {
        b.len() as int
    };
    if a.subrange(0, m) == b.subrange(0, m) {
        if a.len() <= b.len() {
            assert(a =~= a.subrange(0, m));
            assert(a.is_prefix_of(b));
        } else {
            assert(b =~= b.subrange(0, m));
            assert(b.is_prefix_of(a));
        }
    } else {
        lemma_first_difference(a, b, m);
        let k = choose|k: int|
            0 <= k < m && a.subrange(0, k) == b.subrange(0, k) && #[trigger] a[k] != b[k];
        if a[k] < b[k] {
            assert(first_less_at(a, b, k));
        } else {
            assert(first_less_at(b, a, k));
        }
    }
}

/// Byte order is transitive.
pub proof fn lemma_bytes_le_transitive(a: Seq<u8>, b: Seq<u8>, c: Seq<u8>)
    requires
        bytes_le(a, b),
        bytes_le(b, c),
    ensures
        bytes_le(a, c),
{
    if a.is_prefix_of(b) && b.is_prefix_of(c) {
        assert(a =~= c.subrange(0, a.len() as int)) by {
            assert forall|i: int| 0 <= i < a.len() implies a[i] == c[i] by {
                assert(a[i] == b.subrange(0, a.len() as int)[i]);
                assert(b[i] == c.subrange(0, b.len() as int)[i]);
            }
        }
    } else if a.is_prefix_of(b) {
        let k = choose|k: int| #[trigger] first_less_at(b, c, k);
        if k < a.len() {
            assert(a.subrange(0, k) =~= c.subrange(0, k)) by {
                assert forall|i: int| 0 <= i < k implies a[i] == c[i] by {
                    assert(a[i] == b.subrange(0, a.len() as int)[i]);
                    assert(b.subrange(0, k)[i] == c.subrange(0, k)[i]);
                }
            }
            assert(a[k] == b.subrange(0, a.len() as int)[k]);
            assert(first_less_at(a, c, k));
        } else {
            assert(a =~= c.subrange(0, a.len() as int)) by {
                assert forall|i: int| 0 <= i < a.len() implies a[i] == c[i] by {
                    assert(a[i] == b.subrange(0, a.len() as int)[i]);
                    assert(b.subrange(0, k)[i] == c.subrange(0, k)[i]);
                }
            }
        }
    } else if b.is_prefix_of(c) {
        let k = choose|k: int| #[trigger] first_less_at(a, b, k);
        assert(a.subrange(0, k) =~= c.subrange(0, k)) by {
            assert forall|i: int| 0 <= i < k implies a[i] == c[i] by {
                assert(a.subrange(0, k)[i] == b.subrange(0, k)[i]);
                assert(b[i] == c.subrange(0, b.len() as int)[i]);
            }
        }
        assert(b[k] == c.subrange(0, b.len() as int)[k]);
        assert(first_less_at(a, c, k));
    } else {
        let k1 = choose|k: int| #[trigger] first_less_at(a, b, k);
        let k2 = choose|k: int| #[trigger] first_less_at(b, c, k);
        let k = if k1 <= k2 {
            k1
        } else {
            k2
        };
        assert(a.subrange(0, k) =~= c.subrange(0, k)) by {
            assert forall|i: int| 0 <= i < k implies a[i] == c[i] by {
                assert(a.subrange(0, k1)[i] == b.subrange(0, k1)[i]);
                assert(b.subrange(0, k2)[i] == c.subrange(0, k2)[i]);
            }
        }
        if k1 < k2 {
            assert(b.subrange(0, k2)[k1] == c.subrange(0, k2)[k1]);
        } else if k2 < k1 {
            assert(a.subrange(0, k1)[k2] == b.subrange(0, k1)[k2]);
        }
        assert(first_less_at(a, c, k));
    }
}

/// Whether `a` comes no later than `b` in byte order.
fn str_le(a: &str, b: &str) -> (r: bool)
    ensures
        r == bytes_le(a.spec_bytes(), b.spec_bytes()),
{
    let x = a.as_bytes();
    let y = b.as_bytes();
    let m = if x.len() <= y.len() {
        x.len()
    } else {
        y.len()
    };
    let mut i: usize = 0;
    while i < m
        invariant
            i <= m,
            m <= x@.len(),
            m <= y@.len(),
            m == x@.len() || m == y@.len(),
            x@ == a.spec_bytes(),
            y@ == b.spec_bytes(),
            x@.subrange(0, i as int) == y@.subrange(0, i as int),
        decreases m - i,
    {
        if x[i] != y[i] {
            let r = x[i] < y[i];
            proof {
                if r {
                    assert(first_less_at(x@, y@, i as int));
                    assert(lex_less(x@, y@));
                } else {
                    assert(first_less_at(y@, x@, i as int));
                    assert(!x@.is_prefix_of(y@)) by {
                        if x@.is_prefix_of(y@) {
                            assert(x@[i as int] == y@.subrange(0, x@.len() as int)[i as int]);
                        }
                    }
                    assert forall|k: int| !first_less_at(x@, y@, k) by {
                        if first_less_at(x@, y@, k) {
                            assert(x@.subrange(0, k) == y@.subrange(0, k));
                            if k == i {
                                assert(x@[k] < y@[k]);
                            } else if k < i {
                                assert(x@.subrange(0, i as int)[k] == y@.subrange(0, i as int)[k]);
                            } else if k > i {
                                assert(x@.subrange(0, k)[i as int] == y@.subrange(0, k)[i as int]);
                            }
                        }
                    }
                    assert(!lex_less(x@, y@));
                }
                assert(r == bytes_le(x@, y@));
            }
            return r;
        }
        assert(x@.subrange(0, i + 1) =~= x@.subrange(0, i as int).push(x@[i as int]));
        assert(y@.subrange(0, i + 1) =~= y@.subrange(0, i as int).push(y@[i as int]));
        i += 1;
    }
    proof {
        if x@.len() <= y@.len() {
            assert(x@ =~= x@.subrange(0, m as int));
            assert(x@.is_prefix_of(y@));
        } else {
            assert(y@ =~= y@.subrange(0, m as int));
            assert(!x@.is_prefix_of(y@));
            assert forall|k: int| !first_less_at(x@, y@, k) by {
                if first_less_at(x@, y@, k) {
                    assert(x@.subrange(0, m as int)[k] == y@.subrange(0, m as int)[k]);
                }
            }
        }
    }
    x.len() <= y.len()
}

/// Whether boss `b` is open at `ante`.
pub open spec fn boss_open(ante: u32) -> spec_fn(&'static str) -> bool {
    |b: &'static str| !spec_boss_locked(b, ante)
}

/// Whether names are in byte order.
pub open spec fn names_sorted(s: Seq<&'static str>) -> bool {
    forall|i: int, j: int|
        0 <= i < j < s.len() ==> bytes_le(#[trigger] s[i].spec_bytes(), #[trigger] s[j].spec_bytes())
}

/// The bosses of `table` not locked at `ante`, sorted by name: each open
/// boss as often as the table lists it, in byte order.
pub fn boss_pool(table: &[&'static str], ante: u32) -> (r: Vec<&'static str>)
    ensures
        r@.to_multiset() == table@.filter(boss_open(ante)).to_multiset(),
        names_sorted(r@),
{
    broadcast use vstd::seq_lib::group_to_multiset_ensures;

    let mut open: Vec<&'static str> = Vec::new();
    let mut i: usize = 0;
    assert(table@.subrange(0, 0).filter(boss_open(ante)) =~= Seq::<&'static str>::empty()) by {
        reveal(Seq::filter);
    }
    while i < table.len()
        invariant
            i <= table@.len(),
            open@ == table@.subrange(0, i as int).filter(boss_open(ante)),
        decreases table@.len() - i,
    {
        let b = table[i];
        let ghost before = open@;
        if !is_boss_locked(b, ante) {
            open.push(b);
        }
        proof {
            let sub = table@.subrange(0, i + 1);
            assert(sub.drop_last() =~= table@.subrange(0, i as int));
            assert(sub.last() == b);
            assert(boss_open(ante)(b) == !spec_boss_locked(b, ante));
            assert(sub =~= table@.subrange(0, i as int).push(b));
            table@.subrange(0, i as int).lemma_filter_push(b, boss_open(ante));
            assert(sub.filter(boss_open(ante)) == if boss_open(ante)(b) {
                before.push(b)
            } else {
                before
            });
        }
        i += 1;
    }
    assert(table@.subrange(0, table@.len() as int) =~= table@);
    let mut pool: Vec<&'static str> = Vec::new();
    let mut j: usize = 0;
    assert(open@.subrange(0, 0) =~= Seq::<&'static str>::empty());
    while j < open.len()
        invariant
            j <= open@.len(),
            pool@.to_multiset() == open@.subrange(0, j as int).to_multiset(),
            names_sorted(pool@),
        decreases open@.len() - j,
    {
        let x = open[j];
        let mut p: usize = 0;
        while p < pool.len() && str_le(pool[p], x)
            invariant
                p <= pool@.len(),
                forall|k: int| 0 <= k < p ==> bytes_le(#[trigger] pool@[k].spec_bytes(), x.spec_bytes()),
            decreases pool@.len() - p,
        {
            p += 1;
        }
        proof {
            if p < pool@.len() {
                assert(!bytes_le(pool@[p as int].spec_bytes(), x.spec_bytes()));
                lemma_bytes_le_total(pool@[p as int].spec_bytes(), x.spec_bytes());
            }
        }
        let ghost before = pool@;
        pool.insert(p, x);
        proof {
            assert(pool@ == before.insert(p as int, x));
            vstd::seq_lib::to_multiset_insert(before, p as int, x);
            assert(open@.subrange(0, j + 1) =~= open@.subrange(0, j as int).push(x));
            vstd::seq_lib::to_multiset_build(open@.subrange(0, j as int), x);
            assert forall|a: int, c: int| 0 <= a < c < pool@.len() implies bytes_le(
                #[trigger] pool@[a].spec_bytes(),
                #[trigger] pool@[c].spec_bytes(),
            ) by {
                if c < p {
                    assert(pool@[a] == before[a] && pool@[c] == before[c]);
                } else if c == p {
                    assert(pool@[a] == before[a]);
                } else if a < p {
                    assert(pool@[a] == before[a] && pool@[c] == before[c - 1]);
                    if p < c - 1 {
                        lemma_bytes_le_transitive(
                            x.spec_bytes(),
                            before[p as int].spec_bytes(),
                            before[c - 1].spec_bytes(),
                        );
                    }
                    lemma_bytes_le_transitive(
                        before[a].spec_bytes(),
                        x.spec_bytes(),
                        before[c - 1].spec_bytes(),
                    );
                } else if a == p {
                    assert(pool@[c] == before[c - 1]);
                    if p < c - 1 {
                        lemma_bytes_le_transitive(
                            x.spec_bytes(),
                            before[p as int].spec_bytes(),
                            before[c - 1].spec_bytes(),
                        );
                    }
                } else {
                    assert(pool@[a] == before[a - 1] && pool@[c] == before[c - 1]);
                }
            }
        }
        j += 1;
    }
    assert(open@.subrange(0, open@.len() as int) =~= open@);
    pool
}

/// The boss a draw picks from the pool: the draw is 1-based; an empty pool
/// gives the empty name.
pub fn pick_boss(pool: &Vec<&'static str>, draw: u32) -> (r: &'static str)
    requires
        pool@.len() > 0 ==> 1 <= draw <= pool@.len(),
    ensures
        pool@.len() == 0 ==> r@ == ""@,
        pool@.len() > 0 ==> r == pool@[draw - 1],
{
    if pool.len() == 0 {
        return "";
    }
    pool[(draw - 1) as usize]
}

} // verus!
