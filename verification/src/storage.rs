//! The account-balance store: an insertion-ordered association list from
//! account identifiers to unsigned balances, plus a persistence codec.

use vstd::prelude::*;
use crate::text::{str_eq, u64_to_string, dec_str};

verus! {

/// First-match lookup of `k` among the pairs of `s`.
pub open spec fn slookup(s: Seq<(Seq<char>, u64)>, k: Seq<char>) -> Option<u64>
    decreases s.len(),
{
    if s.len() == 0 {
        None
    } else if s[0].0 == k {
        Some(s[0].1)
    } else {
        slookup(s.drop_first(), k)
    }
}

/// The balance bound to `k`, or zero when `k` is absent.
pub open spec fn lookup_or_zero(s: Seq<(Seq<char>, u64)>, k: Seq<char>) -> u64 {
    match slookup(s, k) {
        Some(v) => v,
        None => 0,
    }
}

/// `s` with the binding for `k` set to `v`: replaced in place when `k` is
/// present, pushed at the end when it is not.
pub open spec fn supdate(s: Seq<(Seq<char>, u64)>, k: Seq<char>, v: u64) -> Seq<(Seq<char>, u64)>
    decreases s.len(),
{
    if s.len() == 0 {
        seq![(k, v)]
    } else if s[0].0 == k {
        seq![(k, v)] + s.drop_first()
    } else {
        seq![s[0]] + supdate(s.drop_first(), k, v)
    }
}

/// The sum of all balances: the total supply of the ledger.
pub open spec fn ssum(s: Seq<(Seq<char>, u64)>) -> int
    decreases s.len(),
{
    if s.len() == 0 {
        0
    } else {
        s[0].1 + ssum(s.drop_first())
    }
}

/// Each key occurs at most once.
pub open spec fn distinct_keys(s: Seq<(Seq<char>, u64)>) -> bool
    decreases s.len(),
{
    if s.len() == 0 {
        true
    } else {
        slookup(s.drop_first(), s[0].0) is None && distinct_keys(s.drop_first())
    }
}

/// A key is absent exactly when no pair carries it.
pub proof fn lemma_slookup_none_iff(s: Seq<(Seq<char>, u64)>, k: Seq<char>)
    ensures
        slookup(s, k) is None <==> (forall|i: int| 0 <= i < s.len() ==> (#[trigger] s[i]).0 != k),
    decreases s.len(),
{
    if s.len() > 0 {
        lemma_slookup_none_iff(s.drop_first(), k);
        assert(forall|i: int|
            #![trigger s[i]]
            #![trigger s.drop_first()[i - 1]]
            1 <= i < s.len() ==> s[i] == s.drop_first()[i - 1]);
    }
}

/// Lookup after an update on the same key finds the new value.
pub proof fn lemma_slookup_supdate_same(s: Seq<(Seq<char>, u64)>, k: Seq<char>, v: u64)
    ensures
        slookup(supdate(s, k, v), k) == Some(v),
    decreases s.len(),
{
    if s.len() != 0 && s[0].0 != k {
        lemma_slookup_supdate_same(s.drop_first(), k, v);
        assert((seq![s[0]] + supdate(s.drop_first(), k, v)).drop_first() =~= supdate(
            s.drop_first(),
            k,
            v,
        ));
    } else if s.len() != 0 {
        assert((seq![(k, v)] + s.drop_first())[0] == (k, v));
    } else {
        assert(seq![(k, v)][0] == (k, v));
    }
}

/// An update on one key leaves every other key's binding alone.
pub proof fn lemma_slookup_supdate_other(
    s: Seq<(Seq<char>, u64)>,
    k: Seq<char>,
    v: u64,
    k2: Seq<char>,
)
    requires
        k2 != k,
    ensures
        slookup(supdate(s, k, v), k2) == slookup(s, k2),
    decreases s.len(),
{
    reveal_with_fuel(slookup, 3);
    if s.len() == 0 {
        assert(seq![(k, v)][0] == (k, v));
        assert(seq![(k, v)].drop_first() =~= Seq::<(Seq<char>, u64)>::empty());
    } else if s[0].0 == k {
        assert((seq![(k, v)] + s.drop_first())[0] == (k, v));
        assert((seq![(k, v)] + s.drop_first()).drop_first() =~= s.drop_first());
    } else {
        lemma_slookup_supdate_other(s.drop_first(), k, v, k2);
        assert((seq![s[0]] + supdate(s.drop_first(), k, v))[0] == s[0]);
        assert((seq![s[0]] + supdate(s.drop_first(), k, v)).drop_first() =~= supdate(
            s.drop_first(),
            k,
            v,
        ));
    }
}

/// An update changes the total supply by the difference between the new
/// and the old binding.
pub proof fn lemma_ssum_supdate(s: Seq<(Seq<char>, u64)>, k: Seq<char>, v: u64)
    ensures
        ssum(supdate(s, k, v)) == ssum(s) + v - lookup_or_zero(s, k),
    decreases s.len(),
{
    reveal_with_fuel(ssum, 3);
    reveal_with_fuel(slookup, 3);
    if s.len() == 0 {
        assert(seq![(k, v)][0] == (k, v));
        assert(seq![(k, v)].drop_first() =~= Seq::<(Seq<char>, u64)>::empty());
    } else if s[0].0 == k {
        assert((seq![(k, v)] + s.drop_first())[0] == (k, v));
        assert((seq![(k, v)] + s.drop_first()).drop_first() =~= s.drop_first());
    } else {
        lemma_ssum_supdate(s.drop_first(), k, v);
        assert((seq![s[0]] + supdate(s.drop_first(), k, v))[0] == s[0]);
        assert((seq![s[0]] + supdate(s.drop_first(), k, v)).drop_first() =~= supdate(
            s.drop_first(),
            k,
            v,
        ));
    }
}

/// Updates preserve key uniqueness.
pub proof fn lemma_supdate_distinct(s: Seq<(Seq<char>, u64)>, k: Seq<char>, v: u64)
    requires
        distinct_keys(s),
    ensures
        distinct_keys(supdate(s, k, v)),
    decreases s.len(),
{
    reveal_with_fuel(distinct_keys, 3);
    reveal_with_fuel(slookup, 3);
    if s.len() == 0 {
        assert(seq![(k, v)].drop_first() =~= Seq::<(Seq<char>, u64)>::empty());
    } else if s[0].0 == k {
        assert((seq![(k, v)] + s.drop_first())[0] == (k, v));
        assert((seq![(k, v)] + s.drop_first()).drop_first() =~= s.drop_first());
    } else {
        lemma_supdate_distinct(s.drop_first(), k, v);
        lemma_slookup_supdate_other(s.drop_first(), k, v, s[0].0);
        assert((seq![s[0]] + supdate(s.drop_first(), k, v))[0] == s[0]);
        assert((seq![s[0]] + supdate(s.drop_first(), k, v)).drop_first() =~= supdate(
            s.drop_first(),
            k,
            v,
        ));
    }
}

/// Skipping pairs whose keys do not match leaves the lookup unchanged.
proof fn lemma_slookup_skip(s: Seq<(Seq<char>, u64)>, k: Seq<char>, i: int)
    requires
        0 <= i <= s.len(),
        forall|j: int| 0 <= j < i ==> (#[trigger] s[j]).0 != k,
    ensures
        slookup(s, k) == slookup(s.skip(i), k),
    decreases i,
{
    if i > 0 {
        assert(s.drop_first() =~= s.skip(1));
        assert(forall|j: int| 0 <= j < i - 1 ==> (#[trigger] s.skip(1)[j]).0 != k);
        lemma_slookup_skip(s.skip(1), k, i - 1);
        assert(s.skip(1).skip(i - 1) =~= s.skip(i));
    } else {
        assert(s.skip(0) =~= s);
    }
}

/// The account-balance mapping, keyed by identifier, in insertion order.
pub struct Storage {
    accounts: Vec<(String, u64)>,
}

impl View for Storage {
    type V = Seq<(Seq<char>, u64)>;

    closed spec fn view(&self) -> Seq<(Seq<char>, u64)> {
        self.accounts.deep_view()
    }
}

impl Storage {
    /// Account identifiers never repeat.
    #[verifier::type_invariant]
    pub closed spec fn wf(self) -> bool {
        distinct_keys(self@)
    }

    /// An empty mapping.
    pub fn new() -> (r: Storage)
        ensures
            r@ =~= Seq::<(Seq<char>, u64)>::empty(),
    {
        Storage { accounts: Vec::new() }
    }

    /// The balance bound to `id`, if any.
    pub fn get(&self, id: &str) -> (r: Option<u64>)
        ensures
            r == slookup(self@, id@),
    {
        let n = self.accounts.len();
        let mut i: usize = 0;
        while i < n
            invariant
                0 <= i <= n,
                n == self@.len(),
                forall|j: int| 0 <= j < i ==> (#[trigger] self@[j]).0 != id@,
            decreases n - i,
        {
            if str_eq(self.accounts[i].0.as_str(), id) {
                proof {
                    lemma_slookup_skip(self@, id@, i as int);
                    assert(self@.skip(i as int)[0] == self@[i as int]);
                }
                return Some(self.accounts[i].1);
            }
            i = i + 1;
        }
        proof {
            lemma_slookup_skip(self@, id@, n as int);
            assert(self@.skip(n as int) =~= Seq::<(Seq<char>, u64)>::empty());
        }
        None
    }

    /// Whether `id` has an account.
    pub fn contains(&self, id: &str) -> (r: bool)
        ensures
            r == (slookup(self@, id@) is Some),
    {
        self.get(id).is_some()
    }

    /// Binds `id` to `v`, replacing any previous binding.
    pub fn set(&mut self, id: &str, v: u64)
        ensures
            final(self)@ == supdate(old(self)@, id@, v),
    {
        proof {
            use_type_invariant(&*self);
        }
        let ghost pre = self@;
        let mut accounts: Vec<(String, u64)> = Vec::new();
        core::mem::swap(&mut accounts, &mut self.accounts);
        let n = accounts.len();
        let mut i: usize = 0;
        let mut replaced = false;
        while i < n && !replaced
            invariant
                0 <= i <= n,
                n == pre.len(),
                !replaced ==> accounts.deep_view() == pre && (forall|j: int|
                    0 <= j < i ==> (#[trigger] pre[j]).0 != id@),
                replaced ==> accounts.deep_view() == supdate(pre, id@, v),
            decreases n - i + (if replaced { 0int } else { 1int }),
        {
            if str_eq(accounts[i].0.as_str(), id) {
                let key = accounts[i].0.clone();
                accounts[i] = (key, v);
                proof {
                    lemma_supdate_at(pre, id@, v, i as int);
                    assert(accounts.deep_view() =~= pre.update(i as int, (id@, v)));
                }
                replaced = true;
            } else {
                i = i + 1;
            }
        }
        if !replaced {
            accounts.push((String::from_str(id), v));
            proof {
                lemma_supdate_absent(pre, id@, v);
                assert(accounts.deep_view() =~= pre.push((id@, v)));
            }
        }
        proof {
            lemma_supdate_distinct(pre, id@, v);
        }
        core::mem::swap(&mut accounts, &mut self.accounts);
    }

    /// A copy of the mapping.
    pub fn duplicate(&self) -> (r: Storage)
        ensures
            r@ == self@,
    {
        proof {
            use_type_invariant(&*self);
        }
        let n = self.accounts.len();
        let mut out: Vec<(String, u64)> = Vec::new();
        let mut i: usize = 0;
        while i < n
            invariant
                0 <= i <= n,
                n == self@.len(),
                out.deep_view() =~= self@.take(i as int),
            decreases n - i,
        {
            let ghost prev = out.deep_view();
            let key = self.accounts[i].0.clone();
            let ghost kv = key@;
            out.push((key, self.accounts[i].1));
            proof {
                assert(out.deep_view().len() == prev.len() + 1);
                assert(forall|j: int| 0 <= j < prev.len() ==> #[trigger] out.deep_view()[j] == prev[
                    j]);
                assert(out.deep_view()[i as int] == (kv, self@[i as int].1));
                assert(kv == self@[i as int].0);
                assert(out.deep_view() =~= self@.take(i + 1));
            }
            i = i + 1;
        }
        proof {
            assert(self@.take(n as int) =~= self@);
        }
        let r = Storage { accounts: out };
        proof {
            assert(r.wf());
        }
        r
    }
}

/// One line of the account listing.
pub open spec fn account_line(id: Seq<char>, balance: u64) -> Seq<char> {
    "Account ID: "@ + id + ", Balance: "@ + dec_str(balance as nat) + "\n"@
}

/// The account listing: one line per account, in insertion order.
pub open spec fn render_accounts(s: Seq<(Seq<char>, u64)>) -> Seq<char>
    decreases s.len(),
{
    if s.len() == 0 {
        Seq::empty()
    } else {
        render_accounts(s.drop_last()) + account_line(s.last().0, s.last().1)
    }
}

/// Key uniqueness, stated over index pairs.
pub proof fn lemma_distinct_keys_iff(s: Seq<(Seq<char>, u64)>)
    ensures
        distinct_keys(s) <==> (forall|i: int, j: int|
            0 <= i < j < s.len() ==> (#[trigger] s[i]).0 != (#[trigger] s[j]).0),
    decreases s.len(),
{
    if s.len() > 0 {
        lemma_distinct_keys_iff(s.drop_first());
        lemma_slookup_none_iff(s.drop_first(), s[0].0);
        assert(forall|i: int|
            #![trigger s[i]]
            #![trigger s.drop_first()[i - 1]]
            1 <= i < s.len() ==> s[i] == s.drop_first()[i - 1]);
    }
}

/// The opaque persisted rendering of an account mapping.
pub uninterp spec fn encoding_of(m: Seq<(Seq<char>, u64)>) -> Seq<char>;

/// Relies on serde_json::to_string: the rendering of a vector of
/// string/integer pairs is a function of that value alone, and always
/// succeeds for this type — its only failure causes are a failing
/// `Serialize` impl or a map with non-string keys, and neither can arise
/// here, the writer being an in-memory byte vector.
#[verifier::external_body]
fn encode_pairs(v: &Vec<(String, u64)>) -> (r: Option<String>)
    ensures
        r is Some,
        r.unwrap()@ == encoding_of(v.deep_view()),
{
    serde_json::to_string(v).ok()
}

/// Relies on serde_json::from_str: deserializing a string produced by
/// serde_json::to_string for this type yields the original value.
#[verifier::external_body]
fn decode_pairs(s: &str) -> (r: Option<Vec<(String, u64)>>)
    ensures
        forall|m: Seq<(Seq<char>, u64)>|
            s@ == #[trigger] encoding_of(m) ==> (r is Some && r.unwrap().deep_view() == m),
{
    serde_json::from_str(s).ok()
}

fn keys_distinct_exec(v: &Vec<(String, u64)>) -> (r: bool)
    ensures
        r == distinct_keys(v.deep_view()),
{
    proof {
        lemma_distinct_keys_iff(v.deep_view());
    }
    let n = v.len();
    let mut i: usize = 0;
    while i < n
        invariant
            0 <= i <= n,
            n == v.deep_view().len(),
            forall|a: int, b: int|
                0 <= a < b < n && a < i ==> (#[trigger] v.deep_view()[a]).0 != (
                #[trigger] v.deep_view()[b]).0,
        decreases n - i,
    {
        let mut j: usize = i + 1;
        while j < n
            invariant
                i < j <= n,
                n == v.deep_view().len(),
                forall|b: int| i < b < j ==> (#[trigger] v.deep_view()[b]).0 != v.deep_view()[
                    i as int].0,
            decreases n - j,
        {
            if str_eq(v[i].0.as_str(), v[j].0.as_str()) {
                proof {
                    assert((v.deep_view()[i as int]).0 == (v.deep_view()[j as int]).0);
                    lemma_distinct_keys_iff(v.deep_view());
                }
                return false;
            }
            j = j + 1;
        }
        i = i + 1;
    }
    true
}

impl Storage {
    /// Renders the listing of all accounts, one line each.
    pub fn render_list(&self) -> (r: String)
        ensures
            r@ == render_accounts(self@),
    {
        let n = self.accounts.len();
        let mut out = String::new();
        let mut i: usize = 0;
        while i < n
            invariant
                0 <= i <= n,
                n == self@.len(),
                out@ == render_accounts(self@.take(i as int)),
            decreases n - i,
        {
            let balance = u64_to_string(self.accounts[i].1);
            out.append("Account ID: ");
            out.append(self.accounts[i].0.as_str());
            out.append(", Balance: ");
            out.append(balance.as_str());
            out.append("\n");
            proof {
                assert(self@.take(i + 1).drop_last() =~= self@.take(i as int));
                assert(self@.take(i + 1).last() == self@[i as int]);
                assert(out@ =~= render_accounts(self@.take(i + 1)));
            }
            i = i + 1;
        }
        proof {
            assert(self@.take(n as int) =~= self@);
        }
        out
    }

    /// Whether the mapping has no accounts.
    pub fn is_empty(&self) -> (r: bool)
        ensures
            r == (self@.len() == 0),
    {
        self.accounts.len() == 0
    }

    /// Renders the mapping for the persistent store; this never fails.
    pub fn encode(&self) -> (r: Option<String>)
        ensures
            r is Some,
            r.unwrap()@ == encoding_of(self@),
    {
        encode_pairs(&self.accounts)
    }

    /// Round trip of the persistence codec: reading the rendering back
    /// always yields an equal mapping.
    pub fn round_trip(&self) -> (r: Option<Storage>)
        ensures
            r is Some,
            r.unwrap()@ == self@,
    {
        proof {
            use_type_invariant(&*self);
        }
        match self.encode() {
            None => None,
            Some(text) => {
                let loaded = Storage::decode(text.as_str());
                proof {
                    assert(loaded is Some && loaded.unwrap()@ == self@);
                }
                loaded
            },
        }
    }

    /// Reads a mapping back from its persisted rendering; any string that
    /// is not the rendering of a mapping with unique keys may be refused.
    pub fn decode(s: &str) -> (r: Option<Storage>)
        ensures
            forall|m: Seq<(Seq<char>, u64)>|
                s@ == #[trigger] encoding_of(m) && distinct_keys(m) ==> (r is Some && r.unwrap()@
                    == m),
    {
        match decode_pairs(s) {
            None => None,
            Some(v) => {
                if keys_distinct_exec(&v) {
                    let r = Storage { accounts: v };
                    proof {
                        assert(r.wf());
                    }
                    Some(r)
                } else {
                    None
                }
            },
        }
    }
}

/// Replacing a matching pair in place is the same as `supdate`.
proof fn lemma_supdate_at(s: Seq<(Seq<char>, u64)>, k: Seq<char>, v: u64, i: int)
    requires
        0 <= i < s.len(),
        forall|j: int| 0 <= j < i ==> (#[trigger] s[j]).0 != k,
        s[i].0 == k,
    ensures
        supdate(s, k, v) == s.update(i, (k, v)),
    decreases i,
{
    if i == 0 {
        assert(supdate(s, k, v) =~= s.update(0, (k, v)));
    } else {
        assert(s.drop_first() =~= s.skip(1));
        assert(forall|j: int| 0 <= j < i - 1 ==> (#[trigger] s.skip(1)[j]).0 != k);
        lemma_supdate_at(s.skip(1), k, v, i - 1);
        assert(supdate(s, k, v) =~= seq![s[0]] + supdate(s.skip(1), k, v));
        assert(seq![s[0]] + s.skip(1).update(i - 1, (k, v)) =~= s.update(i, (k, v)));
    }
}

/// Updating an absent key appends the pair.
proof fn lemma_supdate_absent(s: Seq<(Seq<char>, u64)>, k: Seq<char>, v: u64)
    requires
        forall|j: int| 0 <= j < s.len() ==> (#[trigger] s[j]).0 != k,
    ensures
        supdate(s, k, v) == s.push((k, v)),
    decreases s.len(),
{
    if s.len() == 0 {
        assert(supdate(s, k, v) =~= s.push((k, v)));
    } else {
        assert(forall|j: int| 0 <= j < s.drop_first().len() ==> (#[trigger] s.drop_first()[j]).0
            != k);
        lemma_supdate_absent(s.drop_first(), k, v);
        assert(seq![s[0]] + s.drop_first().push((k, v)) =~= s.push((k, v)));
    }
}

} // verus!
