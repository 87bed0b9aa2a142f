//! The balance ledger: a sparse table from (asset, account) to the quantity
//! held, where a missing entry reads as zero.
use vstd::prelude::*;
use crate::{AccountId, AssetId};

verus! {

/// One line of the ledger: `account` holds `amount` of `asset`.
#[derive(Clone, Copy, Debug, PartialEq, Eq)]
pub struct Holding {
    pub asset: AssetId,
    pub account: AccountId,
    pub amount: u128,
}

/// Whether `h` is the line of `account` for `asset`.
pub open spec fn keyed(h: Holding, asset: AssetId, account: AccountId) -> bool {
    h.asset == asset && h.account == account
}

/// No two lines speak of the same (asset, account) pair.
pub open spec fn distinct_keys(lines: Seq<Holding>) -> bool {
    forall|i: int, j: int|
        #![trigger lines[i], lines[j]]
        0 <= i < j < lines.len() ==> !keyed(lines[j], lines[i].asset, lines[i].account)
}

/// Whether some line speaks of the pair (asset, account).
pub open spec fn has_line(lines: Seq<Holding>, asset: AssetId, account: AccountId) -> bool {
    exists|i: int| 0 <= i < lines.len() && keyed(#[trigger] lines[i], asset, account)
}

/// The place of the line for (asset, account), where there is one.
pub open spec fn line_of(lines: Seq<Holding>, asset: AssetId, account: AccountId) -> int {
    choose|i: int| 0 <= i < lines.len() && keyed(#[trigger] lines[i], asset, account)
}

/// The quantity of `asset` that `account` holds: what its line says, or zero
/// without a line.
pub open spec fn amount_of(lines: Seq<Holding>, asset: AssetId, account: AccountId) -> u128 {
    if has_line(lines, asset, account) {
        lines[line_of(lines, asset, account)].amount
    } else {
        0
    }
}

/// What one line adds to the total of `asset`.
pub open spec fn share(h: Holding, asset: AssetId) -> nat {
    if h.asset == asset {
        h.amount as nat
    } else {
        0
    }
}

/// The sum of all the lines of `asset`.
pub open spec fn total_of(lines: Seq<Holding>, asset: AssetId) -> nat
    decreases lines.len(),
{
    if lines.len() == 0 {
        0
    } else {
        total_of(lines.drop_last(), asset) + share(lines.last(), asset)
    }
}

/// The ledger after `h.account`'s holding of `h.asset` is set to `h.amount`:
/// an existing line is overwritten in place, a new one is appended.
pub open spec fn put(lines: Seq<Holding>, h: Holding) -> Seq<Holding> {
    if has_line(lines, h.asset, h.account) {
        lines.update(line_of(lines, h.asset, h.account), h)
    } else {
        lines.push(h)
    }
}

/// With distinct keys, the line found at `i` is the line of its pair.
pub proof fn lemma_line_found(lines: Seq<Holding>, i: int)
    requires
        distinct_keys(lines),
        0 <= i < lines.len(),
    ensures
        has_line(lines, lines[i].asset, lines[i].account),
        line_of(lines, lines[i].asset, lines[i].account) == i,
        amount_of(lines, lines[i].asset, lines[i].account) == lines[i].amount,
{
    let asset = lines[i].asset;
    let account = lines[i].account;
    assert(keyed(lines[i], asset, account));
    let j = line_of(lines, asset, account);
    assert(0 <= j < lines.len() && keyed(lines[j], asset, account));
    if j < i {
        assert(!keyed(lines[i], lines[j].asset, lines[j].account));
    } else if i < j {
        assert(!keyed(lines[j], lines[i].asset, lines[i].account));
    }
}

/// Appending a line adds its share to the total.
pub proof fn lemma_total_push(lines: Seq<Holding>, h: Holding, asset: AssetId)
    ensures
        total_of(lines.push(h), asset) == total_of(lines, asset) + share(h, asset),
{
    assert(lines.push(h).drop_last() =~= lines);
}

/// Overwriting a line replaces its share in the total.
pub proof fn lemma_total_update(lines: Seq<Holding>, i: int, h: Holding, asset: AssetId)
    requires
        0 <= i < lines.len(),
    ensures
        total_of(lines.update(i, h), asset) + share(lines[i], asset) == total_of(lines, asset)
            + share(h, asset),
    decreases lines.len(),
{
    let after = lines.update(i, h);
    if i == lines.len() - 1 {
        assert(after.drop_last() =~= lines.drop_last());
    } else {
        assert(after.drop_last() =~= lines.drop_last().update(i, h));
        lemma_total_update(lines.drop_last(), i, h, asset);
    }
}

/// Two different lines together never exceed the total of an asset.
pub proof fn lemma_two_lines_bounded(lines: Seq<Holding>, i: int, j: int, asset: AssetId)
    requires
        0 <= i < j < lines.len(),
    ensures
        share(lines[i], asset) + share(lines[j], asset) <= total_of(lines, asset),
    decreases lines.len(),
{
    if j == lines.len() - 1 {
        lemma_one_line_bounded(lines.drop_last(), i, asset);
    } else {
        lemma_two_lines_bounded(lines.drop_last(), i, j, asset);
    }
}

/// One line never exceeds the total of an asset.
pub proof fn lemma_one_line_bounded(lines: Seq<Holding>, i: int, asset: AssetId)
    requires
        0 <= i < lines.len(),
    ensures
        share(lines[i], asset) <= total_of(lines, asset),
    decreases lines.len(),
{
    if i < lines.len() - 1 {
        lemma_one_line_bounded(lines.drop_last(), i, asset);
    }
}

/// A holding never exceeds the total of its asset.
pub proof fn lemma_amount_bounded(lines: Seq<Holding>, asset: AssetId, account: AccountId)
    ensures
        amount_of(lines, asset, account) <= total_of(lines, asset),
{
    if has_line(lines, asset, account) {
        lemma_one_line_bounded(lines, line_of(lines, asset, account), asset);
    }
}

/// The holdings of two different accounts together never exceed the total of
/// the asset.
pub proof fn lemma_two_amounts_bounded(
    lines: Seq<Holding>,
    asset: AssetId,
    first: AccountId,
    second: AccountId,
)
    requires
        first != second,
    ensures
        amount_of(lines, asset, first) + amount_of(lines, asset, second) <= total_of(
            lines,
            asset,
        ),
{
    lemma_amount_bounded(lines, asset, first);
    lemma_amount_bounded(lines, asset, second);
    if has_line(lines, asset, first) && has_line(lines, asset, second) {
        let i = line_of(lines, asset, first);
        let j = line_of(lines, asset, second);
        if i < j {
            lemma_two_lines_bounded(lines, i, j, asset);
        } else {
            lemma_two_lines_bounded(lines, j, i, asset);
        }
    }
}

/// What `put` does to a ledger with distinct keys: the keys stay distinct,
/// the pair written reads back the new amount, every other pair reads as
/// before, and the total of the asset moves by the difference.
pub proof fn lemma_put(lines: Seq<Holding>, h: Holding)
    requires
        distinct_keys(lines),
    ensures
        distinct_keys(put(lines, h)),
        put(lines, h).len() >= lines.len(),
        amount_of(put(lines, h), h.asset, h.account) == h.amount,
        forall|asset: AssetId, account: AccountId|
            !keyed(h, asset, account) ==> #[trigger] amount_of(put(lines, h), asset, account)
                == amount_of(lines, asset, account),
        forall|asset: AssetId, account: AccountId|
            has_line(lines, asset, account) ==> #[trigger] has_line(put(lines, h), asset, account),
        total_of(put(lines, h), h.asset) + amount_of(lines, h.asset, h.account) == total_of(
            lines,
            h.asset,
        ) + h.amount,
        forall|asset: AssetId|
            asset != h.asset ==> #[trigger] total_of(put(lines, h), asset) == total_of(
                lines,
                asset,
            ),
{
    let after = put(lines, h);
    let at = if has_line(lines, h.asset, h.account) {
        line_of(lines, h.asset, h.account)
    } else {
        lines.len() as int
    };
    assert(0 <= at < after.len() && after[at] == h);
    assert forall|k: int| 0 <= k < after.len() && k != at implies after[k] == lines[k] && !keyed(
        lines[k],
        h.asset,
        h.account,
    ) by {
        if has_line(lines, h.asset, h.account) {
            lemma_line_found(lines, at);
            if keyed(lines[k], h.asset, h.account) {
                lemma_line_found(lines, k);
            }
        }
    }
    assert(distinct_keys(after)) by {
        assert forall|i: int, j: int| 0 <= i < j < after.len() implies !keyed(
            after[j],
            after[i].asset,
            after[i].account,
        ) by {
            if i != at && j != at {
                assert(!keyed(lines[j], lines[i].asset, lines[i].account));
            }
        }
    }
    lemma_line_found(after, at);
    assert forall|asset: AssetId, account: AccountId| has_line(lines, asset, account) implies
        #[trigger] has_line(after, asset, account) by {
        let k = line_of(lines, asset, account);
        assert(keyed(after[k], asset, account));
    }
    assert forall|asset: AssetId, account: AccountId| !keyed(h, asset, account) implies
        #[trigger] amount_of(after, asset, account) == amount_of(lines, asset, account) by {
        if has_line(lines, asset, account) {
            let k = line_of(lines, asset, account);
            assert(keyed(after[k], asset, account));
            lemma_line_found(after, k);
        } else if has_line(after, asset, account) {
            let k = line_of(after, asset, account);
            assert(keyed(lines[k], asset, account));
        }
    }
    assert forall|asset: AssetId|
        total_of(after, asset) + (if has_line(lines, h.asset, h.account) {
            share(lines[at], asset)
        } else {
            0
        }) == #[trigger] total_of(lines, asset) + share(h, asset) by {
        if has_line(lines, h.asset, h.account) {
            lemma_total_update(lines, at, h, asset);
        } else {
            lemma_total_push(lines, h, asset);
        }
    }
    if has_line(lines, h.asset, h.account) {
        lemma_line_found(lines, at);
    }
    assert forall|asset: AssetId| asset != h.asset implies #[trigger] total_of(after, asset)
        == total_of(lines, asset) by {
        assert(total_of(lines, asset) + share(h, asset) == total_of(lines, asset));
    }
    assert(total_of(after, h.asset) + amount_of(lines, h.asset, h.account) == total_of(
        lines,
        h.asset,
    ) + share(h, h.asset));
}

/// The sum of two quantities, capped at the largest one.
pub open spec fn capped_sum(a: u128, b: u128) -> u128 {
    if a + b > u128::MAX {
        u128::MAX
    } else {
        (a + b) as u128
    }
}

/// The smaller of two quantities.
pub open spec fn smaller(a: u128, b: u128) -> u128 {
    if a <= b {
        a
    } else {
        b
    }
}

/// The difference of two quantities, floored at zero.
pub open spec fn floored_difference(a: u128, b: u128) -> u128 {
    if a < b {
        0
    } else {
        (a - b) as u128
    }
}

/// Takes up to `amount` out of a balance: returns what remains and what was
/// taken, which is all of the balance where it is less than `amount`.
pub fn withdraw(balance: u128, amount: u128) -> (parts: (u128, u128))
    ensures
        parts.1 == smaller(amount, balance),
        parts.0 == balance - parts.1,
{
    let remaining = balance.saturating_sub(amount);
    (remaining, balance - remaining)
}

/// Adds `amount` to a balance, stopping at the largest quantity.
pub fn deposit(balance: u128, amount: u128) -> (raised: u128)
    ensures
        raised == capped_sum(balance, amount),
{
    balance.saturating_add(amount)
}

/// The ledger after `from` hands up to `amount` of `asset` to `to`: `from`
/// gives what it has of that, and `to` receives the same, capped at the
/// largest quantity.
pub open spec fn moved_between(
    lines: Seq<Holding>,
    asset: AssetId,
    from: AccountId,
    to: AccountId,
    amount: u128,
) -> Seq<Holding> {
    let held = amount_of(lines, asset, from);
    let moved = smaller(amount, held);
    let debited = put(lines, Holding { asset, account: from, amount: (held - moved) as u128 });
    put(
        debited,
        Holding { asset, account: to, amount: capped_sum(amount_of(debited, asset, to), moved) },
    )
}

/// Every balance reads the same in both ledgers, but for those that `first`
/// and `second` hold of `asset`.
pub open spec fn same_elsewhere(
    after: Seq<Holding>,
    before: Seq<Holding>,
    asset: AssetId,
    first: AccountId,
    second: AccountId,
) -> bool {
    forall|a: AssetId, w: AccountId|
        !(a == asset && (w == first || w == second)) ==> #[trigger] amount_of(after, a, w)
            == amount_of(before, a, w)
}

/// A transfer conserves what it moves: where the total of the asset fits in
/// a quantity and the two accounts differ, the sender loses the smaller of
/// the amount and its balance and the recipient gains exactly that; their
/// two balances together are the same before and after, as are every other
/// balance and every total.
pub proof fn lemma_transfer_conserves(
    lines: Seq<Holding>,
    asset: AssetId,
    from: AccountId,
    to: AccountId,
    amount: u128,
)
    requires
        distinct_keys(lines),
        total_of(lines, asset) <= u128::MAX,
    ensures
        ({
            let after = moved_between(lines, asset, from, to, amount);
            let moved = smaller(amount, amount_of(lines, asset, from));
            &&& distinct_keys(after)
            &&& from != to ==> amount_of(after, asset, from) == amount_of(lines, asset, from)
                - moved
            &&& from != to ==> amount_of(after, asset, to) == amount_of(lines, asset, to) + moved
            &&& from == to ==> amount_of(after, asset, from) == amount_of(lines, asset, from)
            &&& amount_of(after, asset, from) + amount_of(after, asset, to) == amount_of(
                lines,
                asset,
                from,
            ) + amount_of(lines, asset, to)
            &&& same_elsewhere(after, lines, asset, from, to)
            &&& forall|a: AssetId| #[trigger] total_of(after, a) == total_of(lines, a)
        }),
{
    let held = amount_of(lines, asset, from);
    let moved = smaller(amount, held);
    let first = Holding { asset, account: from, amount: (held - moved) as u128 };
    let debited = put(lines, first);
    lemma_put(lines, first);
    let second = Holding {
        asset,
        account: to,
        amount: capped_sum(amount_of(debited, asset, to), moved),
    };
    lemma_put(debited, second);
    if from != to {
        lemma_two_amounts_bounded(lines, asset, from, to);
        assert(keyed(first, asset, from) && !keyed(first, asset, to));
        assert(!keyed(second, asset, from));
    }
    lemma_amount_bounded(lines, asset, from);
    let after = put(debited, second);
    assert forall|a: AssetId, w: AccountId| !(a == asset && (w == from || w == to)) implies
        #[trigger] amount_of(after, a, w) == amount_of(lines, a, w) by {
        assert(!keyed(first, a, w) && !keyed(second, a, w));
        assert(amount_of(debited, a, w) == amount_of(lines, a, w));
    }
    assert forall|a: AssetId| #[trigger] total_of(after, a) == total_of(lines, a) by {
        if a != asset {
            assert(total_of(debited, a) == total_of(lines, a));
        }
    }
}

/// The balance ledger. Lines are created on the first write to a pair and are
/// never removed, even when the amount returns to zero.
pub struct Ledger {
    lines: Vec<Holding>,
}

impl View for Ledger {
    type V = Seq<Holding>;

    closed spec fn view(&self) -> Seq<Holding> {
        self.lines@
    }
}

impl Ledger {
    /// The ledger keeps at most one line per (asset, account) pair.
    pub open spec fn wf(&self) -> bool {
        distinct_keys(self@)
    }

    /// The quantity of `asset` that `account` holds.
    #[verifier::inline]
    pub open spec fn balance(&self, asset: AssetId, account: AccountId) -> u128 {
        amount_of(self@, asset, account)
    }

    /// The sum of all holdings of `asset`.
    #[verifier::inline]
    pub open spec fn total(&self, asset: AssetId) -> nat {
        total_of(self@, asset)
    }

    /// An empty ledger: every balance reads as zero.
    pub fn new() -> (ledger: Ledger)
        ensures
            ledger@ == Seq::<Holding>::empty(),
            ledger.wf(),
    {
        Ledger { lines: Vec::new() }
    }

    /// The place of the line for (asset, account), if the ledger has one.
    fn find(&self, asset: AssetId, account: AccountId) -> (place: Option<usize>)
        requires
            self.wf(),
        ensures
            match place {
                Some(i) => i < self@.len() && has_line(self@, asset, account) && line_of(
                    self@,
                    asset,
                    account,
                ) == i,
                None => !has_line(self@, asset, account),
            },
    {
        let mut i: usize = 0;
        while i < self.lines.len()
            invariant
                i <= self.lines.len(),
                self.wf(),
                forall|k: int| 0 <= k < i ==> !keyed(#[trigger] self@[k], asset, account),
            decreases self.lines.len() - i,
        {
            let line = self.lines[i];
            if line.asset == asset && line.account == account {
                proof {
                    lemma_line_found(self@, i as int);
                }
                return Some(i);
            }
            i += 1;
        }
        None
    }

    /// Reads the balance of `account` for `asset`; zero where nothing was
    /// ever written.
    pub fn get(&self, asset: AssetId, account: AccountId) -> (amount: u128)
        requires
            self.wf(),
        ensures
            amount == self.balance(asset, account),
    {
        match self.find(asset, account) {
            Some(i) => self.lines[i].amount,
            None => 0,
        }
    }

    /// Sets the balance of `account` for `asset` to `amount`.
    pub fn insert(&mut self, asset: AssetId, account: AccountId, amount: u128)
        requires
            old(self).wf(),
        ensures
            final(self).wf(),
            final(self)@ == put(old(self)@, (Holding { asset, account, amount })),
            final(self).balance(asset, account) == amount,
            same_elsewhere(final(self)@, old(self)@, asset, account, account),
            final(self).total(asset) + old(self).balance(asset, account) == old(self).total(asset)
                + amount,
            forall|a: AssetId|
                a != asset ==> #[trigger] total_of(final(self)@, a) == total_of(old(self)@, a),
    {
        let h = Holding { asset, account, amount };
        proof {
            lemma_put(self@, h);
        }
        match self.find(asset, account) {
            Some(i) => {
                self.lines.set(i, h);
            },
            None => {
                self.lines.push(h);
            },
        }
    }
}

} // verus!
