//! The registry of scripts: an ordered, immutable collection of [`Script`]s
//! keyed by small integers, with a deterministic text menu and key-based
//! invocation.

use vstd::prelude::*;
use vstd::relations::{total_ordering, is_minimal};
use vstd::std_specs::iter::IteratorSpec;
use vstd::string::StrSliceExecFns;
use vstd::string::StringExecFns;
use crate::display::spec_decimal;
use crate::script::{Script, ScriptResult};
use std::collections::BTreeMap;

verus! {

broadcast use vstd::laws_cmp::group_laws_cmp;

/// The ordering by which menu entries are listed.
pub open spec fn key_le() -> spec_fn(usize, usize) -> bool {
    |a: usize, b: usize| a <= b
}

/// A sequence of keys in strictly ascending order.
pub open spec fn sorted_ascending(s: Seq<usize>) -> bool {
    forall|i: int, j: int| 0 <= i < j < s.len() ==> s[i] < s[j]
}

proof fn lemma_key_le_total()
    ensures
        total_ordering(key_le()),
{
}

/// The unique enumeration of a finite key set in ascending order.
pub open spec fn sorted_keys(dom: Set<usize>) -> Seq<usize>
    decreases dom.len(),
    when dom.finite()
    via sorted_keys_decreases
{
    if dom.finite() && dom.len() > 0 {
        let m = dom.find_unique_minimal(key_le());
        seq![m] + sorted_keys(dom.remove(m))
    } else {
        Seq::empty()
    }
}

#[via_fn]
proof fn sorted_keys_decreases(dom: Set<usize>) {
    if dom.finite() && dom.len() > 0 {
        lemma_key_le_total();
        dom.find_unique_minimal_ensures(key_le());
    }
}

/// The ascending enumeration of a finite key set contains exactly its keys,
/// each exactly once, in strictly ascending order.
pub proof fn lemma_sorted_keys_props(dom: Set<usize>)
    requires
        dom.finite(),
    ensures
        sorted_ascending(sorted_keys(dom)),
        sorted_keys(dom).to_set() == dom,
        sorted_keys(dom).len() == dom.len(),
    decreases dom.len(),
{
    if dom.len() > 0 {
        lemma_key_le_total();
        dom.find_unique_minimal_ensures(key_le());
        let m = dom.find_unique_minimal(key_le());
        let rest = dom.remove(m);
        lemma_sorted_keys_props(rest);
        let s = sorted_keys(dom);
        let s1 = sorted_keys(rest);
        assert(s == seq![m] + s1);
        // m is below every other key: from minimality and totality of key_le.
        assert forall|x: usize| rest.contains(x) implies m < x by {
            assert(dom.contains(x));
            if x <= m {
                assert(key_le()(x, m));
                assert(key_le()(m, x));
            }
        }
        assert forall|i: int, j: int| 0 <= i < j < s.len() implies s[i] < s[j] by {
            if i == 0 {
                assert(s1.to_set().contains(s1[j - 1]));
            }
        }
        assert(s.to_set() =~= dom) by {
            assert forall|x: usize| dom.contains(x) && x != m implies s.contains(x) by {
                assert(rest.contains(x));
                assert(s1.to_set().contains(x));
                let k = choose|k: int| 0 <= k < s1.len() && s1[k] == x;
                assert(s[k + 1] == x);
            }
            assert(s.contains(m)) by {
                assert(s[0] == m);
            }
            assert forall|x: usize| s.contains(x) implies dom.contains(x) by {
                let k = choose|k: int| 0 <= k < s.len() && s[k] == x;
                if k > 0 {
                    assert(s1.to_set().contains(s1[k - 1]));
                }
            }
        }
    } else {
        assert(sorted_keys(dom).to_set() =~= dom);
    }
}

/// A strictly ascending sequence that enumerates a key set is the ascending
/// enumeration of that set: the menu order is unique.
pub proof fn lemma_sorted_keys_unique(s: Seq<usize>, dom: Set<usize>)
    requires
        sorted_ascending(s),
        s.to_set() == dom,
    ensures
        s == sorted_keys(dom),
    decreases s.len(),
{
    lemma_key_le_total();
    assert(dom.finite()) by {
        s.lemma_cardinality_of_set();
    }
    if s.len() == 0 {
        assert(dom =~= Set::empty());
        assert(dom.len() == 0);
    } else {
        assert(dom.contains(s[0]));
        assert(dom.len() > 0) by {
            if dom.len() == 0 {
                dom.lemma_len0_is_empty();
            }
        }
        dom.find_unique_minimal_ensures(key_le());
        let m = dom.find_unique_minimal(key_le());
        // s[0] is a minimal element of dom.
        assert(is_minimal(key_le(), s[0], dom)) by {
            assert forall|x: usize| dom.contains(x) && key_le()(x, s[0]) implies key_le()(
                s[0],
                x,
            ) by {
                let k = choose|k: int| 0 <= k < s.len() && s[k] == x;
            }
        }
        assert(m == s[0]);
        let s1 = s.drop_first();
        assert(sorted_ascending(s1));
        assert(s1.to_set() =~= dom.remove(s[0])) by {
            assert forall|x: usize| s1.contains(x) implies dom.remove(s[0]).contains(x) by {
                let k = choose|k: int| 0 <= k < s1.len() && s1[k] == x;
                assert(s[k + 1] == x);
                assert(s[0] < s[k + 1]);
            }
            assert forall|x: usize| dom.remove(s[0]).contains(x) implies s1.contains(x) by {
                let k = choose|k: int| 0 <= k < s.len() && s[k] == x;
                assert(k > 0);
                assert(s1[k - 1] == x);
            }
        }
        lemma_sorted_keys_unique(s1, dom.remove(s[0]));
        assert(s =~= seq![s[0]] + s1);
    }
}

/// The menu header line: the name between two fixed rules.
pub open spec fn spec_header(name: Seq<char>) -> Seq<char> {
    "========== "@ + name + " =========="@
}

/// The menu footer line: a rule of the same character width as the header.
pub open spec fn spec_footer(name: Seq<char>) -> Seq<char> {
    Seq::new(spec_header(name).len(), |i: int| '=')
}

/// One menu entry line: the key in brackets, then the description.
pub open spec fn spec_menu_line(k: usize, desc: Seq<char>) -> Seq<char> {
    "["@ + spec_decimal(k as nat) + "] "@ + desc + "\n"@
}

/// The menu entry lines for the keys `ks`, in order, one line each.
pub open spec fn spec_menu_lines(m: Map<usize, Script>, ks: Seq<usize>) -> Seq<char>
    decreases ks.len(),
{
    if ks.len() == 0 {
        Seq::empty()
    } else {
        spec_menu_line(ks[0], m[ks[0]].spec_description()) + spec_menu_lines(m, ks.drop_first())
    }
}

proof fn lemma_menu_lines_snoc(m: Map<usize, Script>, ks: Seq<usize>, i: int)
    requires
        0 <= i < ks.len(),
    ensures
        spec_menu_lines(m, ks.take(i + 1)) == spec_menu_lines(m, ks.take(i)) + spec_menu_line(
            ks[i],
            m[ks[i]].spec_description(),
        ),
    decreases i,
{
    let line = spec_menu_line(ks[i], m[ks[i]].spec_description());
    if i == 0 {
        assert(ks.take(0) =~= Seq::empty());
        assert(spec_menu_lines(m, ks.take(0)) =~= Seq::empty());
        assert(ks.take(1).len() == 1);
        assert(ks.take(1)[0] == ks[0]);
        assert(ks.take(1).drop_first() =~= Seq::empty());
        assert(spec_menu_lines(m, ks.take(1).drop_first()) =~= Seq::empty());
        assert(spec_menu_lines(m, ks.take(1)) =~= line + Seq::empty());
        assert(line + Seq::empty() =~= Seq::empty() + line);
    } else {
        let tail = ks.drop_first();
        lemma_menu_lines_snoc(m, tail, i - 1);
        assert(ks.take(i + 1).drop_first() =~= tail.take(i));
        assert(ks.take(i).drop_first() =~= tail.take(i - 1));
        assert(ks.take(i + 1)[0] == ks[0]);
        assert(ks.take(i)[0] == ks[0]);
        assert(tail[i - 1] == ks[i]);
        let head = spec_menu_line(ks[0], m[ks[0]].spec_description());
        assert(spec_menu_lines(m, ks.take(i + 1)) == head + (spec_menu_lines(m, tail.take(i - 1))
            + line));
        assert(head + (spec_menu_lines(m, tail.take(i - 1)) + line) =~= (head + spec_menu_lines(
            m,
            tail.take(i - 1),
        )) + line);
    }
}

/// Insert `k` into a strictly ascending key vector, keeping it strictly
/// ascending. Inserting a key already present leaves the vector unchanged:
/// the later registration entry overrides the earlier one in the map, but the
/// key set is the same.
fn insert_sorted(v: &mut Vec<usize>, k: usize)
    requires
        sorted_ascending(old(v)@),
    ensures
        sorted_ascending(final(v)@),
        final(v)@.to_set() == old(v)@.to_set().insert(k),
{
    let mut i: usize = 0;
    while i < v.len() && *v.get(i).unwrap() < k
        invariant
            i <= v@.len(),
            sorted_ascending(v@),
            v@ == old(v)@,
            forall|j: int| 0 <= j < i ==> v@[j] < k,
        decreases v@.len() - i,
    {
        i = i + 1;
    }
    if i < v.len() && *v.get(i).unwrap() == k {
        proof {
            assert(v@.to_set() =~= old(v)@.to_set().insert(k)) by {
                assert(v@.contains(k)) by {
                    assert(v@[i as int] == k);
                }
            }
        }
        return;
    }
    v.insert(i, k);
    proof {
        let s0 = old(v)@;
        let s1 = v@;
        assert(s1 == s0.insert(i as int, k));
        assert forall|p: int, q: int| 0 <= p < q < s1.len() implies s1[p] < s1[q] by {
            if p < i && q == i {
                assert(s0[p] < k);
            } else if p == i && q > i {
                assert(s1[q] == s0[q - 1]);
                if q - 1 == i {
                    assert(s0[q - 1] != k);
                    assert(forall|j: int| 0 <= j < i ==> s0[j] < k);
                    assert(k <= s0[i as int]);
                } else {
                    assert(k <= s0[i as int] && s0[i as int] != k || i == s0.len());
                    assert(s0[i as int] < s0[q - 1] || i as int == q - 1);
                }
            }
        }
        assert(s1.to_set() =~= s0.to_set().insert(k)) by {
            assert forall|x: usize| s1.contains(x) implies s0.to_set().insert(k).contains(x) by {
                let j = choose|j: int| 0 <= j < s1.len() && s1[j] == x;
                if j < i {
                    assert(s0[j] == x);
                } else if j > i {
                    assert(s0[j - 1] == x);
                }
            }
            assert forall|x: usize| s0.contains(x) implies s1.contains(x) by {
                let j = choose|j: int| 0 <= j < s0.len() && s0[j] == x;
                if j < i {
                    assert(s1[j] == x);
                } else {
                    assert(s1[j + 1] == x);
                }
            }
            assert(s1.contains(k)) by {
                assert(s1[i as int] == k);
            }
        }
    }
}

/// A named, immutable registry of scripts keyed by positive integers.
/// The interactive side (printing the menu, prompting, reading a selection)
/// belongs to a driver; the registry itself only renders the menu text and
/// invokes scripts by key.
pub struct ScriptManager {
    /// The name displayed in the menu header.
    pub name: &'static str,
    scripts: BTreeMap<usize, Script>,
    keys: Vec<usize>,
}

impl ScriptManager {
    /// The registry name, for use in contracts.
    pub closed spec fn spec_name(&self) -> Seq<char> {
        self.name@
    }

    /// The key-to-script mapping, for use in contracts.
    pub closed spec fn spec_scripts(&self) -> Map<usize, Script> {
        self.scripts@
    }

    #[verifier::type_invariant]
    spec fn inv(&self) -> bool {
        &&& sorted_ascending(self.keys@)
        &&& self.keys@.to_set() == self.scripts@.dom()
    }

    /// Construct a registry with the given name and scripts. The map's keys
    /// become the menu option identifiers. Without an explicit name, the
    /// fixed default label is used. Keys are unique because the entries
    /// arrive as a map: a caller that collected duplicate registrations into
    /// it has already resolved them by the map's own policy (a later entry
    /// replaces an earlier one).
    pub fn new(name: Option<&'static str>, scripts: BTreeMap<usize, Script>) -> (m: ScriptManager)
        ensures
            m.spec_name() == (match name {
                Some(n) => n@,
                None => "ScriptManager"@,
            }),
            m.spec_scripts() == scripts@,
    {
        let mut keys: Vec<usize> = Vec::new();
        let ghost iseq = vstd::std_specs::btree::spec_btree_map_iter(&scripts).remaining();
        let ghost mut n: int = 0;
        proof {
            assert(keys@.to_set() =~= Set::empty());
        }
        for kv in it: scripts.iter()
            invariant
                it.seq() == iseq,
                n == it.index(),
                sorted_ascending(keys@),
                forall|x: usize| #[trigger] keys@.to_set().contains(x) <==> exists|j: int|
                    0 <= j < n && *iseq[j].0 == x,
        {
            insert_sorted(&mut keys, *kv.0);
            proof {
                assert(kv == iseq[n]);
                n = n + 1;
            }
        }
        proof {
            assert(n == iseq.len());
            assert(keys@.to_set() =~= scripts@.dom()) by {
                assert forall|x: usize| keys@.to_set().contains(x) implies scripts@.dom().contains(
                    x,
                ) by {
                    let j = choose|j: int| 0 <= j < n && *iseq[j].0 == x;
                    assert(scripts@.contains_key(*iseq[j].0));
                }
                assert forall|x: usize| scripts@.dom().contains(x) implies keys@.to_set().contains(
                    x,
                ) by {
                    assert(iseq.contains((&x, &scripts@[x])));
                    let j = choose|j: int| 0 <= j < iseq.len() && iseq[j] == (&x, &scripts@[x]);
                    assert(*iseq[j].0 == x);
                }
            }
        }
        ScriptManager {
            name: match name {
                Some(n) => n,
                None => "ScriptManager",
            },
            scripts,
            keys,
        }
    }

    /// The full menu text: header line, one line per entry in ascending key
    /// order, and a footer line of the same character width as the header.
    pub open spec fn spec_render(&self) -> Seq<char> {
        spec_header(self.spec_name()) + "\n"@ + spec_menu_lines(
            self.spec_scripts(),
            sorted_keys(self.spec_scripts().dom()),
        ) + spec_footer(self.spec_name())
    }

    /// Produce the menu text. Pure: nothing is printed, nothing is executed.
    pub fn render(&self) -> (r: String)
        ensures
            r@ == self.spec_render(),
    {
        proof {
            use_type_invariant(self);
            lemma_sorted_keys_unique(self.keys@, self.scripts@.dom());
            reveal_strlit("========== ");
            reveal_strlit(" ==========");
            reveal_strlit("===========");
            reveal_strlit("\n");
            reveal_strlit("=");
            reveal_strlit("[");
            reveal_strlit("] ");
        }
        let ghost m = self.scripts@;
        let ghost sk = self.keys@;
        let ghost header = spec_header(self.spec_name());
        let mut r = String::new();
        r.append("========== ");
        r.append(self.name);
        r.append(" ==========");
        r.append("\n");
        proof {
            assert(r@ =~= header + "\n"@);
            assert(r@ =~= header + "\n"@ + spec_menu_lines(m, sk.take(0)));
        }
        let mut i: usize = 0;
        while i < self.keys.len()
            invariant
                i <= sk.len(),
                sk == self.keys@,
                m == self.scripts@,
                sk.to_set() == m.dom(),
                r@ == header + "\n"@ + spec_menu_lines(m, sk.take(i as int)),
                header == spec_header(self.spec_name()),
            decreases sk.len() - i,
        {
            let k = self.keys[i];
            let num = crate::display::usize_to_string(k);
            proof {
                assert(sk.to_set().contains(k)) by {
                    assert(sk[i as int] == k);
                }
            }
            let desc = match self.scripts.get(&k) {
                Some(sc) => sc.description(),
                None => vstd::pervasive::unreached(),
            };
            r.append("[");
            r.append(num.as_str());
            r.append("] ");
            r.append(desc);
            r.append("\n");
            proof {
                lemma_menu_lines_snoc(m, sk, i as int);
                assert(r@ =~= header + "\n"@ + spec_menu_lines(m, sk.take(i as int + 1)));
            }
            i = i + 1;
        }
        proof {
            assert(sk.take(sk.len() as int) =~= sk);
        }
        let ghost lines_done = header + "\n"@ + spec_menu_lines(m, sk);
        r.append("===========");
        let name_chars = self.name.unicode_len();
        proof {
            assert(r@ =~= lines_done + Seq::new(11nat, |p: int| '='));
        }
        let mut j: usize = 0;
        while j < name_chars
            invariant
                j <= name_chars,
                name_chars == self.name@.len(),
                r@ == lines_done + Seq::new((11 + j) as nat, |p: int| '='),
            decreases name_chars - j,
        {
            r.append("=");
            proof {
                reveal_strlit("=");
                assert(r@ =~= lines_done + Seq::new((11 + j + 1) as nat, |p: int| '='));
            }
            j = j + 1;
        }
        r.append("===========");
        proof {
            assert(r@ =~= lines_done + Seq::new((22 + name_chars) as nat, |p: int| '='));
            assert(Seq::new((22 + name_chars) as nat, |p: int| '=') =~= spec_footer(
                self.spec_name(),
            ));
            assert(r@ =~= self.spec_render());
        }
        r
    }

    /// The number of registered scripts.
    pub fn len(&self) -> (n: usize)
        ensures
            n == self.spec_scripts().len(),
    {
        self.scripts.len()
    }

    /// Whether a script is registered under `idx`: the validation a driver
    /// performs before invoking.
    pub fn contains(&self, idx: usize) -> (b: bool)
        ensures
            b == self.spec_scripts().contains_key(idx),
    {
        self.scripts.contains_key(&idx)
    }

    /// Invoke the script registered under `idx` and hand its outcome back
    /// unchanged. The key must be present: validating operator input is the
    /// driver's responsibility. Each call executes the script's computation
    /// anew.
    pub fn run_script(&self, idx: usize) -> (r: ScriptResult)
        requires
            self.spec_scripts().contains_key(idx),
        ensures
            self.spec_scripts()[idx].possible(r),
    {
        match self.scripts.get(&idx) {
            Some(s) => s.run(),
            None => vstd::pervasive::unreached(),
        }
    }
}

/// The menu's structural law: the keys it lists are exactly the registered
/// keys, each once, in strictly ascending order, and the footer line has the
/// same character width as the header line.
pub proof fn lemma_render_structure(m: ScriptManager)
    ensures
        sorted_ascending(sorted_keys(m.spec_scripts().dom())),
        sorted_keys(m.spec_scripts().dom()).to_set() == m.spec_scripts().dom(),
        sorted_keys(m.spec_scripts().dom()).len() == m.spec_scripts().dom().len(),
        spec_footer(m.spec_name()).len() == spec_header(m.spec_name()).len(),
{
    assert(m.spec_scripts().dom().finite()) by {
        assert(m.scripts@.dom().finite());
    }
    lemma_sorted_keys_props(m.spec_scripts().dom());
}

} // verus!
