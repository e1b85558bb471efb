//! The durable record store: a monotonic id counter in one stable-memory
//! partition and an ordered id-to-bytes map in another. The two durable
//! components are held behind trusted wrappers; everything layered on
//! them — encoding, validation, the record operations and their
//! invariants — is verified against the wrappers' contracts.
use vstd::prelude::*;
use crate::codec::{decode, decode_spec, encode, lemma_round_trip};
use crate::record::{
    blank, check_payload, desc_fits, payload_valid, record_valid, Error, Expense, ExpensePayload,
    ExpenseView,
};
use ic_stable_structures::memory_manager::{MemoryId, MemoryManager};
use ic_stable_structures::{Cell, DefaultMemoryImpl, StableBTreeMap};
use vstd::string::StringExecFns;
use vstd::utf8::{
    encode_utf8, encode_utf8_decode_utf8, encode_utf8_valid_utf8, is_ascii_chars,
    is_ascii_chars_encode_utf8, valid_utf8,
};

verus! {

/// The durable partition holding the next identifier to allocate.
#[verifier::external_body]
pub struct IdCounter {
    cell: Cell<
        u64,
        ic_stable_structures::memory_manager::VirtualMemory<DefaultMemoryImpl>,
    >,
}

/// The abstract value of the durable id counter.
pub uninterp spec fn counter_value(c: IdCounter) -> u64;

impl IdCounter {
    /// Relies on `Cell::get`: returns the value the cell holds.
    #[verifier::external_body]
    fn get(&self) -> (r: u64)
        ensures
            r == counter_value(*self),
    {
        *self.cell.get()
    }

    /// Relies on `Cell::set`: writes the value durably and returns the
    /// prior one. For an 8-byte value the backing write cannot fail.
    #[verifier::external_body]
    fn set(&mut self, v: u64) -> (r: u64)
        ensures
            counter_value(*final(self)) == v,
            r == counter_value(*old(self)),
    {
        self.cell.set(v)
    }
}

/// The durable partition holding the ordered id-to-bytes record map.
#[verifier::external_body]
pub struct RecordMap {
    map: StableBTreeMap<
        u64,
        Vec<u8>,
        ic_stable_structures::memory_manager::VirtualMemory<DefaultMemoryImpl>,
    >,
}

/// The abstract contents of the durable record map.
pub uninterp spec fn map_contents(m: RecordMap) -> Map<u64, Seq<u8>>;

impl RecordMap {
    /// Relies on `StableBTreeMap::get`: returns the value stored under
    /// the key, or `None` where the key is absent.
    #[verifier::external_body]
    fn get(&self, k: u64) -> (r: Option<Vec<u8>>)
        ensures
            match r {
                Some(v) => map_contents(*self).contains_key(k) && map_contents(*self)[k] == v@,
                None => !map_contents(*self).contains_key(k),
            },
    {
        self.map.get(&k)
    }

    /// Relies on `StableBTreeMap::insert`: stores the value under the
    /// key, returning the value it replaces, and writes through durably.
    #[verifier::external_body]
    fn insert(&mut self, k: u64, v: Vec<u8>) -> (r: Option<Vec<u8>>)
        ensures
            map_contents(*final(self)) == map_contents(*old(self)).insert(k, v@),
            match r {
                Some(p) => map_contents(*old(self)).contains_key(k) && map_contents(*old(self))[k]
                    == p@,
                None => !map_contents(*old(self)).contains_key(k),
            },
    {
        self.map.insert(k, v)
    }

    /// Relies on `StableBTreeMap::remove`: removes the key and returns
    /// the value it held, or `None` where the key was absent.
    #[verifier::external_body]
    fn remove(&mut self, k: u64) -> (r: Option<Vec<u8>>)
        ensures
            map_contents(*final(self)) == map_contents(*old(self)).remove(k),
            match r {
                Some(p) => map_contents(*old(self)).contains_key(k) && map_contents(*old(self))[k]
                    == p@,
                None => !map_contents(*old(self)).contains_key(k),
            },
    {
        self.map.remove(&k)
    }

    /// Relies on `StableBTreeMap::iter`: yields every entry of the map
    /// exactly once, in ascending key order.
    #[verifier::external_body]
    fn entries(&self) -> (r: Vec<(u64, Vec<u8>)>)
        ensures
            forall|i: int, j: int|
                0 <= i < j < r@.len() ==> (#[trigger] r@[i]).0 < (#[trigger] r@[j]).0,
            forall|i: int|
                0 <= i < r@.len() ==> map_contents(*self).contains_key((#[trigger] r@[i]).0)
                    && map_contents(*self)[r@[i].0] == r@[i].1@,
            forall|k: u64|
                map_contents(*self).contains_key(k) ==> exists|i: int|
                    0 <= i < r@.len() && (#[trigger] r@[i]).0 == k,
    {
        self.map.iter().map(|e| e.into_pair()).collect()
    }
}

/// One decimal digit as a character.
pub open spec fn digit_char(d: u64) -> char {
    if d == 0 {
        '0'
    } else if d == 1 {
        '1'
    } else if d == 2 {
        '2'
    } else if d == 3 {
        '3'
    } else if d == 4 {
        '4'
    } else if d == 5 {
        '5'
    } else if d == 6 {
        '6'
    } else if d == 7 {
        '7'
    } else if d == 8 {
        '8'
    } else {
        '9'
    }
}

/// The decimal rendering of `n`: its digits, most significant first,
/// with no sign and no leading zeroes.
pub open spec fn dec_digits(n: u64) -> Seq<char>
    decreases n,
{
    if n < 10 {
        seq![digit_char(n)]
    } else {
        dec_digits(n / 10).push(digit_char(n % 10))
    }
}

/// The UTF-8 bytes of the decimal rendering of `n`: one ASCII byte per
/// digit of [`dec_digits`].
pub open spec fn dec_bytes(n: u64) -> Seq<u8>
    decreases n,
{
    if n < 10 {
        seq![(48 + n) as u8]
    } else {
        dec_bytes(n / 10).push((48 + n % 10) as u8)
    }
}

/// The decimal digits are ASCII, and [`dec_bytes`] is exactly their
/// byte-for-byte UTF-8 encoding.
proof fn lemma_dec_digits_bytes(n: u64)
    ensures
        is_ascii_chars(dec_digits(n)),
        dec_digits(n).len() == dec_bytes(n).len(),
        encode_utf8(dec_digits(n)) == dec_bytes(n),
    decreases n,
{
    if n >= 10 {
        lemma_dec_digits_bytes(n / 10);
        is_ascii_chars_encode_utf8(dec_digits(n / 10));
    }
    assert(is_ascii_chars(dec_digits(n))) by {
        if n >= 10 {
            assert forall|i: int| 0 <= i < dec_digits(n).len() implies '\0'
                <= #[trigger] dec_digits(n)[i] <= '\u{7f}' by {
                if i < dec_digits(n).len() - 1 {
                    assert(dec_digits(n)[i] == dec_digits(n / 10)[i]);
                }
            }
        }
    }
    is_ascii_chars_encode_utf8(dec_digits(n));
    assert(dec_digits(n).len() == dec_bytes(n).len());
    assert forall|i: int| 0 <= i < dec_bytes(n).len() implies #[trigger] encode_utf8(
        dec_digits(n),
    )[i] == dec_bytes(n)[i] by {
        assert(encode_utf8(dec_digits(n))[i] == dec_digits(n)[i] as u8);
        if n < 10 {
            assert(dec_digits(n)[i] == digit_char(n));
            assert(dec_bytes(n)[i] == (48 + n) as u8);
            assert(digit_char(n) as u8 == (48 + n) as u8);
        } else if i < dec_bytes(n).len() - 1 {
            assert(dec_bytes(n)[i] == dec_bytes(n / 10)[i]);
            assert(dec_digits(n)[i] == dec_digits(n / 10)[i]);
            assert(encode_utf8(dec_digits(n / 10))[i] == dec_digits(n / 10)[i] as u8);
            assert(dec_bytes(n / 10)[i] == encode_utf8(dec_digits(n / 10))[i]);
        } else {
            assert(dec_bytes(n)[i] == (48 + n % 10) as u8);
            assert(dec_digits(n)[i] == digit_char(n % 10));
            assert(digit_char(n % 10) as u8 == (48 + n % 10) as u8);
        }
    }
    assert(encode_utf8(dec_digits(n)) =~= dec_bytes(n));
}

/// Appends the decimal rendering of `n` to `out`.
fn push_dec_bytes(out: &mut Vec<u8>, n: u64)
    ensures
        final(out)@ == old(out)@ + dec_bytes(n),
    decreases n,
{
    if n >= 10 {
        push_dec_bytes(out, n / 10);
    }
    out.push((48 + n % 10) as u8);
    proof {
        if n < 10 {
            assert(final(out)@ =~= old(out)@ + dec_bytes(n));
        } else {
            assert(final(out)@ =~= old(out)@ + dec_bytes(n));
        }
    }
}

/// Builds the message text: the prefix, the id rendered in decimal, and
/// the suffix, concatenated.
fn msg_with_id(prefix: &str, id: u64, suffix: &str) -> (r: String)
    ensures
        r@ == prefix@ + dec_digits(id) + suffix@,
{
    let mut bytes: Vec<u8> = Vec::new();
    push_dec_bytes(&mut bytes, id);
    proof {
        lemma_dec_digits_bytes(id);
        encode_utf8_valid_utf8(dec_digits(id));
        assert(valid_utf8(bytes@));
    }
    let digits = match crate::codec::string_from_utf8(bytes) {
        Some(s) => s,
        None => {
            proof {
                assert(false);
            }
            String::new()
        },
    };
    proof {
        encode_utf8_decode_utf8(digits@);
        encode_utf8_decode_utf8(dec_digits(id));
        assert(digits@ == dec_digits(id));
    }
    let mut msg = String::from_str(prefix);
    msg.append(digits.as_str());
    msg.append(suffix);
    proof {
        assert(msg@ =~= prefix@ + dec_digits(id) + suffix@);
    }
    msg
}

/// A sequence of record values strictly ascending by id.
pub open spec fn sorted_by_id(s: Seq<ExpenseView>) -> bool {
    forall|i: int, j: int| 0 <= i < j < s.len() ==> (#[trigger] s[i]).id < (#[trigger] s[j]).id
}

/// The sequence lists exactly the entries of the map: every element is a
/// stored pair, and every stored key appears.
pub open spec fn seq_matches(s: Seq<ExpenseView>, m: Map<u64, ExpenseView>) -> bool {
    &&& forall|i: int| 0 <= i < s.len() ==> m.contains_pair((#[trigger] s[i]).id, s[i])
    &&& forall|k: u64|
        m.contains_key(k) ==> exists|i: int| 0 <= i < s.len() && (#[trigger] s[i]).id == k
}

/// An id-sorted listing of a map's entries is unique.
pub proof fn lemma_sorted_matches_unique(s1: Seq<ExpenseView>, s2: Seq<ExpenseView>, m: Map<u64, ExpenseView>)
    requires
        sorted_by_id(s1),
        sorted_by_id(s2),
        seq_matches(s1, m),
        seq_matches(s2, m),
    ensures
        s1 == s2,
    decreases s1.len(),
{
    if s1.len() == 0 {
        if s2.len() > 0 {
            assert(m.contains_key(s2[0].id));
            assert(false);
        }
        assert(s1 =~= s2);
    } else {
        let a = s1.last();
        assert(m.contains_pair(a.id, a));
        if s2.len() == 0 {
            assert(m.contains_key(a.id));
            assert(false);
        }
        let b = s2.last();
        // Both last elements carry the maximum key of the map.
        assert(forall|k: u64| m.contains_key(k) ==> k <= a.id) by {
            assert forall|k: u64| m.contains_key(k) implies k <= a.id by {
                let i = choose|i: int| 0 <= i < s1.len() && s1[i].id == k;
                assert(s1[i].id <= s1[s1.len() - 1].id);
            }
        }
        assert(forall|k: u64| m.contains_key(k) ==> k <= b.id) by {
            assert forall|k: u64| m.contains_key(k) implies k <= b.id by {
                let i = choose|i: int| 0 <= i < s2.len() && s2[i].id == k;
                assert(s2[i].id <= s2[s2.len() - 1].id);
            }
        }
        assert(m.contains_pair(b.id, b));
        assert(a.id == b.id);
        assert(a == b);
        let m1 = m.remove(a.id);
        assert(seq_matches(s1.drop_last(), m1)) by {
            assert forall|k: u64| m1.contains_key(k) implies exists|i: int|
                0 <= i < s1.drop_last().len() && (#[trigger] s1.drop_last()[i]).id == k by {
                let i = choose|i: int| 0 <= i < s1.len() && s1[i].id == k;
                assert(i < s1.len() - 1);
                assert(s1.drop_last()[i].id == k);
            }
        }
        assert(seq_matches(s2.drop_last(), m1)) by {
            assert forall|k: u64| m1.contains_key(k) implies exists|i: int|
                0 <= i < s2.drop_last().len() && (#[trigger] s2.drop_last()[i]).id == k by {
                let i = choose|i: int| 0 <= i < s2.len() && s2[i].id == k;
                assert(i < s2.len() - 1);
                assert(s2.drop_last()[i].id == k);
            }
        }
        lemma_sorted_matches_unique(s1.drop_last(), s2.drop_last(), m1);
        assert(s1.drop_last().len() == s2.drop_last().len());
        assert(s1.len() == s2.len());
        assert forall|i: int| 0 <= i < s1.len() implies s1[i] == s2[i] by {
            if i < s1.len() - 1 {
                assert(s1.drop_last()[i] == s2.drop_last()[i]);
            } else {
                assert(s1[i] == a && s2[i] == b);
            }
        }
        assert(s1 =~= s2);
    }
}

/// The persistent expense store: the monotonic identifier allocator and
/// the durable record map, owned together by a single logical owner.
pub struct ExpenseStore {
    pub counter: IdCounter,
    pub map: RecordMap,
}

impl ExpenseStore {
    /// The identifier the next successful create will assign.
    pub open spec fn next_id(self) -> u64 {
        counter_value(self.counter)
    }

    /// The abstract store contents: each stored byte string, decoded.
    pub open spec fn records(self) -> Map<u64, ExpenseView> {
        Map::new(
            |k: u64| map_contents(self.map).contains_key(k),
            |k: u64| decode_spec(map_contents(self.map)[k]).unwrap(),
        )
    }

    /// Well-formedness: every stored byte string decodes to a valid
    /// record keyed by its own id, and every stored id is below the
    /// counter, so ids are never reused.
    pub open spec fn wf(self) -> bool {
        forall|k: u64|
            #[trigger] map_contents(self.map).contains_key(k) ==> {
                let d = decode_spec(map_contents(self.map)[k]);
                &&& d is Some
                &&& d.unwrap().id == k
                &&& record_valid(d.unwrap())
                &&& k < counter_value(self.counter)
            }
    }

    /// The store's contents as the id-ordered sequence a full scan
    /// produces.
    pub open spec fn seq_view(self) -> Seq<ExpenseView> {
        choose|s: Seq<ExpenseView>| sorted_by_id(s) && seq_matches(s, self.records())
    }

    /// Relies on `MemoryManager::init`, `Cell::init` and
    /// `StableBTreeMap::init`: the default backing memory is sliced into
    /// the two partitions. Freshly created memory is initialised to a
    /// zero counter and an empty map; memory persisted by an earlier run
    /// loads back the counter and records that run's operations left,
    /// and every operation of this store preserves the store invariant.
    /// Rests on the two partitions being written by this store alone.
    #[verifier::external_body]
    fn open_partitions() -> (r: ExpenseStore)
        ensures
            r.wf(),
    {
        let manager = MemoryManager::init(DefaultMemoryImpl::default());
        let counter = IdCounter { cell: Cell::init(manager.get(MemoryId::new(0)), 0) };
        let map = RecordMap { map: StableBTreeMap::init(manager.get(MemoryId::new(1))) };
        ExpenseStore { counter, map }
    }

    /// Opens the store over the two durable partitions: freshly
    /// initialised ones give an empty store with the counter at zero,
    /// while partitions persisted by an earlier run give back the
    /// records and counter that run left behind.
    pub fn new() -> (r: ExpenseStore)
        ensures
            r.wf(),
    {
        ExpenseStore::open_partitions()
    }

    /// The value the durable counter currently holds.
    pub fn next_id_value(&self) -> (r: u64)
        ensures
            r == self.next_id(),
    {
        self.counter.get()
    }

    /// Unconditional upsert keyed by the record's own id.
    pub fn do_insert(&mut self, expense: &Expense)
        requires
            old(self).wf(),
            record_valid(expense@),
            expense@.id < old(self).next_id(),
        ensures
            final(self).wf(),
            final(self).records() == old(self).records().insert(expense@.id, expense@),
            final(self).next_id() == old(self).next_id(),
    {
        let bytes = encode(expense);
        self.map.insert(expense.id, bytes);
        proof {
            lemma_round_trip(expense@);
            assert(final(self).records() =~= old(self).records().insert(expense@.id, expense@));
        }
    }

    /// Exact lookup of a stored record by id.
    pub fn _get_expense(&self, id: u64) -> (r: Option<Expense>)
        requires
            self.wf(),
        ensures
            match r {
                Some(e) => self.records().contains_key(id) && e@ == self.records()[id],
                None => !self.records().contains_key(id),
            },
    {
        match self.map.get(id) {
            Some(bytes) => match decode(bytes.as_slice()) {
                Some(e) => Some(e),
                None => {
                    proof {
                        assert(false);
                    }
                    None
                },
            },
            None => None,
        }
    }

    /// Returns the record stored under `id`, or `NotFound`.
    pub fn get_expense(&self, id: u64) -> (r: Result<Expense, Error>)
        requires
            self.wf(),
        ensures
            self.records().contains_key(id) ==> (r matches Ok(e) && e@ == self.records()[id]),
            !self.records().contains_key(id) ==> (r matches Err(Error::NotFound { msg }) && msg@
                == "Expense with id="@ + dec_digits(id) + " not found"@),
    {
        match self._get_expense(id) {
            Some(expense) => Ok(expense),
            None => Err(
                Error::NotFound { msg: msg_with_id("Expense with id=", id, " not found") },
            ),
        }
    }

    /// Validates the payload, allocates the next id, and stores a new
    /// record stamped with the creation time `now`. Valid payloads are
    /// always accepted; the assigned id was never in the store before.
    pub fn add_expense(&mut self, payload: ExpensePayload, now: u64) -> (r: Result<Expense, Error>)
        requires
            old(self).wf(),
            old(self).next_id() < u64::MAX,
        ensures
            final(self).wf(),
            payload_valid(payload@) ==> (r matches Ok(e) && (e@ == ExpenseView {
                id: old(self).next_id(),
                description: payload@.description,
                amount: payload@.amount,
                date: payload@.date,
                created_at: now,
                updated_at: None,
            }) && !old(self).records().contains_key(e@.id) && final(self).records() == old(self).records().insert(e@.id, e@) && final(self).next_id() == old(self).next_id() + 1),
            !payload_valid(payload@) ==> (r matches Err(Error::InvalidInput { .. }) && final(self).records() == old(self).records() && final(self).next_id() == old(self).next_id()),
            payload@.amount <= 0 ==> (r matches Err(Error::InvalidInput { msg }) && msg@
                == "Amount must be greater than zero"@),
            payload@.amount > 0 && blank(payload@.description) ==> (r matches Err(
                Error::InvalidInput { msg },
            ) && msg@ == "Description cannot be empty or whitespace"@),
            payload@.amount > 0 && !blank(payload@.description) && payload@.date == 0 ==> (
            r matches Err(Error::InvalidInput { msg }) && msg@ == "Date timestamp must be set"@),
            payload@.amount > 0 && !blank(payload@.description) && payload@.date != 0 && !desc_fits(
                payload@.description,
            ) ==> (r matches Err(Error::InvalidInput { msg }) && msg@
                == "Description is too long"@),
    {
        if let Err(e) = check_payload(&payload) {
            return Err(e);
        }
        let id = self.counter.get();
        self.counter.set(id + 1);
        let expense = Expense {
            id,
            description: payload.description,
            amount: payload.amount,
            date: payload.date,
            created_at: now,
            updated_at: None,
        };
        self.do_insert(&expense);
        Ok(expense)
    }

    /// Validates the payload and overwrites the caller-supplied fields of
    /// the record stored under `id`, keeping `created_at` and stamping
    /// `updated_at` with the update time `now`.
    pub fn update_expense(&mut self, id: u64, payload: ExpensePayload, now: u64) -> (r: Result<
        Expense,
        Error,
    >)
        requires
            old(self).wf(),
        ensures
            final(self).wf(),
            final(self).next_id() == old(self).next_id(),
            !payload_valid(payload@) ==> (r matches Err(Error::InvalidInput { .. }) && final(self).records() == old(self).records()),
            payload@.amount <= 0 ==> (r matches Err(Error::InvalidInput { msg }) && msg@
                == "Amount must be greater than zero"@),
            payload@.amount > 0 && blank(payload@.description) ==> (r matches Err(
                Error::InvalidInput { msg },
            ) && msg@ == "Description cannot be empty or whitespace"@),
            payload@.amount > 0 && !blank(payload@.description) && payload@.date == 0 ==> (
            r matches Err(Error::InvalidInput { msg }) && msg@ == "Date timestamp must be set"@),
            payload@.amount > 0 && !blank(payload@.description) && payload@.date != 0 && !desc_fits(
                payload@.description,
            ) ==> (r matches Err(Error::InvalidInput { msg }) && msg@
                == "Description is too long"@),
            payload_valid(payload@) && !old(self).records().contains_key(id) ==> (r matches Err(
                Error::NotFound { msg },
            ) && msg@ == "Couldn't update expense with id="@ + dec_digits(id)
                + ". Expense not found."@ && final(self).records() == old(self).records()),
            payload_valid(payload@) && old(self).records().contains_key(id) ==> (r matches Ok(e)
                && (e@ == ExpenseView {
                id,
                description: payload@.description,
                amount: payload@.amount,
                date: payload@.date,
                created_at: old(self).records()[id].created_at,
                updated_at: Some(now),
            }) && final(self).records() == old(self).records().insert(id, e@)),
    {
        if let Err(e) = check_payload(&payload) {
            return Err(e);
        }
        match self._get_expense(id) {
            Some(stored) => {
                let expense = Expense {
                    id,
                    description: payload.description,
                    amount: payload.amount,
                    date: payload.date,
                    created_at: stored.created_at,
                    updated_at: Some(now),
                };
                self.do_insert(&expense);
                Ok(expense)
            },
            None => Err(
                Error::NotFound {
                    msg: msg_with_id("Couldn't update expense with id=", id, ". Expense not found."),
                },
            ),
        }
    }

    /// Removes the record stored under `id` and returns it, or
    /// `NotFound`.
    pub fn delete_expense(&mut self, id: u64) -> (r: Result<Expense, Error>)
        requires
            old(self).wf(),
        ensures
            final(self).wf(),
            final(self).next_id() == old(self).next_id(),
            old(self).records().contains_key(id) ==> (r matches Ok(e) && e@ == old(self).records()[id] && final(self).records() == old(self).records().remove(id)),
            !old(self).records().contains_key(id) ==> (r matches Err(Error::NotFound { msg })
                && msg@ == "Couldn't delete expense with id="@ + dec_digits(id)
                + ". Expense not found."@ && final(self).records() == old(self).records()),
    {
        let ghost pre = *self;
        match self.map.remove(id) {
            Some(bytes) => {
                proof {
                    assert(final(self).records() =~= pre.records().remove(id));
                }
                match decode(bytes.as_slice()) {
                    Some(e) => Ok(e),
                    None => {
                        proof {
                            assert(false);
                        }
                        Err(Error::NotFound { msg: String::new() })
                    },
                }
            },
            None => {
                proof {
                    assert(final(self).records() =~= pre.records());
                }
                Err(
                    Error::NotFound {
                        msg: msg_with_id(
                            "Couldn't delete expense with id=",
                            id,
                            ". Expense not found.",
                        ),
                    },
                )
            },
        }
    }

    /// Lists the stored records in ascending id order: the full scan the
    /// query operations are built on.
    pub fn scan(&self) -> (r: Vec<Expense>)
        requires
            self.wf(),
        ensures
            r@.map_values(|e: Expense| e@) == self.seq_view(),
            sorted_by_id(self.seq_view()),
            seq_matches(self.seq_view(), self.records()),
    {
        let entries = self.map.entries();
        let mut out: Vec<Expense> = Vec::new();
        let n = entries.len();
        let mut i: usize = 0;
        while i < n
            invariant
                self.wf(),
                n == entries@.len(),
                0 <= i <= n,
                out@.len() == i,
                forall|j: int, l: int|
                    0 <= j < l < entries@.len() ==> (#[trigger] entries@[j]).0 < (
                    #[trigger] entries@[l]).0,
                forall|j: int|
                    0 <= j < entries@.len() ==> map_contents(self.map).contains_key(
                        (#[trigger] entries@[j]).0,
                    ) && map_contents(self.map)[entries@[j].0] == entries@[j].1@,
                forall|k: u64|
                    map_contents(self.map).contains_key(k) ==> exists|j: int|
                        0 <= j < entries@.len() && (#[trigger] entries@[j]).0 == k,
                forall|j: int|
                    0 <= j < i ==> (#[trigger] out@[j])@ == self.records()[entries@[j].0]
                        && out@[j]@.id == entries@[j].0,
            decreases n - i,
        {
            let bytes_ref: &(u64, Vec<u8>) = &entries[i];
            match decode(bytes_ref.1.as_slice()) {
                Some(e) => {
                    proof {
                        assert(map_contents(self.map).contains_key(entries@[i as int].0));
                    }
                    out.push(e);
                },
                None => {
                    proof {
                        assert(map_contents(self.map).contains_key(entries@[i as int].0));
                        assert(false);
                    }
                },
            }
            i = i + 1;
        }
        proof {
            let sv = out@.map_values(|e: Expense| e@);
            assert(sorted_by_id(sv)) by {
                assert forall|a: int, b: int| 0 <= a < b < sv.len() implies (#[trigger] sv[a]).id
                    < (#[trigger] sv[b]).id by {
                    assert(out@[a]@.id == entries@[a].0);
                    assert(out@[b]@.id == entries@[b].0);
                }
            }
            assert(seq_matches(sv, self.records())) by {
                assert forall|a: int| 0 <= a < sv.len() implies self.records().contains_pair(
                    (#[trigger] sv[a]).id,
                    sv[a],
                ) by {
                    assert(out@[a]@ == self.records()[entries@[a].0]);
                }
                assert forall|k: u64| self.records().contains_key(k) implies exists|a: int|
                    0 <= a < sv.len() && (#[trigger] sv[a]).id == k by {
                    let j = choose|j: int|
                        0 <= j < entries@.len() && (#[trigger] entries@[j]).0 == k;
                    assert(sv[j].id == k);
                }
            }
            lemma_sorted_matches_unique(sv, self.seq_view(), self.records());
        }
        out
    }
}

} // verus!
