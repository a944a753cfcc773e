use vstd::prelude::*;

use crate::error::StoreError;
use crate::records::{OptionModel, Ownership, UserModel};

verus! {

/// The abstract state of a store: the three relations, each in insertion
/// order, and the ids that the next user and the next option will get.
pub ghost struct StoreModel {
    pub users: Seq<UserModel>,
    pub options: Seq<OptionModel>,
    pub ownerships: Seq<Ownership>,
    pub next_user_id: u64,
    pub next_option_id: u64,
}

/// Which ownership rows a removal keeps.
#[derive(Clone, Copy, Debug, PartialEq, Eq, Structural)]
pub enum RowFilter {
    /// Rows of every user but this one.
    NotUser(u64),
    /// Rows of every option but this one.
    NotOption(u64),
    /// Rows of every pair but this one.
    NotPair(u64, u64),
}

impl RowFilter {
    pub open spec fn keeps(self, w: Ownership) -> bool {
        match self {
            RowFilter::NotUser(u) => w.user_id != u,
            RowFilter::NotOption(o) => w.option_id != o,
            RowFilter::NotPair(u, o) => !w.is_for(u, o),
        }
    }

    /// Whether the filter keeps the row `w`.
    pub fn keeps_row(&self, w: &Ownership) -> (r: bool)
        ensures
            r == self.keeps(*w),
    {
        match *self {
            RowFilter::NotUser(u) => w.user_id != u,
            RowFilter::NotOption(o) => w.option_id != o,
            RowFilter::NotPair(u, o) => !(w.user_id == u && w.option_id == o),
        }
    }
}

/// The rows of `rows` that `f` keeps, in order.
pub fn filter_rows(rows: &Vec<Ownership>, f: RowFilter) -> (r: Vec<Ownership>)
    ensures
        r@ == kept_rows(rows@, f),
{
    let mut kept: Vec<Ownership> = Vec::new();
    let mut k: usize = 0;
    while k < rows.len()
        invariant
            k <= rows@.len(),
            kept@ == kept_rows(rows@.take(k as int), f),
        decreases rows@.len() - k,
    {
        let w = rows[k];
        proof {
            reveal(Seq::filter);
            assert(rows@.take(k + 1).drop_last() == rows@.take(k as int));
            assert(rows@.take(k + 1).last() == w);
        }
        if f.keeps_row(&w) {
            kept.push(w);
        }
        k = k + 1;
    }
    assert(rows@.take(rows@.len() as int) == rows@);
    kept
}

/// The rows of `s` that `f` keeps, in order.
pub open spec fn kept_rows(s: Seq<Ownership>, f: RowFilter) -> Seq<Ownership> {
    s.filter(|w: Ownership| f.keeps(w))
}

/// Some row of `s` belongs to the pair.
pub open spec fn has_pair(s: Seq<Ownership>, user_id: u64, option_id: u64) -> bool {
    exists|k: int| 0 <= k < s.len() && (#[trigger] s[k]).is_for(user_id, option_id)
}

/// No two rows of `s` belong to the same pair.
pub open spec fn unique_pairs(s: Seq<Ownership>) -> bool {
    forall|k: int, l: int|
        0 <= k < l < s.len() ==> !(#[trigger] s[k]).is_for(
            (#[trigger] s[l]).user_id,
            s[l].option_id,
        )
}

/// The position of a row of `s` for the pair (meaningful where `has_pair`).
pub open spec fn pair_position(s: Seq<Ownership>, user_id: u64, option_id: u64) -> int {
    choose|k: int| 0 <= k < s.len() && (#[trigger] s[k]).is_for(user_id, option_id)
}

/// The quantity that the last row of `s` for the pair holds, or zero
/// where `s` has no such row.
pub open spec fn quantity_in(s: Seq<Ownership>, user_id: u64, option_id: u64) -> i64
    decreases s.len(),
{
    if s.len() == 0 {
        0
    } else if s.last().is_for(user_id, option_id) {
        s.last().quantity
    } else {
        quantity_in(s.drop_last(), user_id, option_id)
    }
}

impl StoreModel {
    /// The state of a freshly initialised store.
    pub open spec fn empty() -> StoreModel {
        StoreModel {
            users: Seq::empty(),
            options: Seq::empty(),
            ownerships: Seq::empty(),
            next_user_id: 1,
            next_option_id: 1,
        }
    }

    pub open spec fn has_user(self, id: u64) -> bool {
        exists|i: int| 0 <= i < self.users.len() && (#[trigger] self.users[i]).id == id
    }

    pub open spec fn has_option(self, id: u64) -> bool {
        exists|j: int| 0 <= j < self.options.len() && (#[trigger] self.options[j]).id == id
    }

    /// The position of the user with this id (meaningful where `has_user`).
    pub open spec fn user_position(self, id: u64) -> int {
        choose|i: int| 0 <= i < self.users.len() && (#[trigger] self.users[i]).id == id
    }

    /// The position of the option with this id (meaningful where `has_option`).
    pub open spec fn option_position(self, id: u64) -> int {
        choose|j: int| 0 <= j < self.options.len() && (#[trigger] self.options[j]).id == id
    }

    /// The invariants of a store: ids increase in insertion order and stay
    /// below the next id, names and symbols are non-empty, every ownership
    /// row refers to an existing user and option with a non-negative
    /// quantity, and no pair has two rows.
    pub open spec fn wf(self) -> bool {
        &&& forall|i: int, j: int|
            0 <= i < j < self.users.len() ==> (#[trigger] self.users[i]).id < (#[trigger] self.users[j]).id
        &&& forall|i: int|
            0 <= i < self.users.len() ==> (#[trigger] self.users[i]).id < self.next_user_id
                && self.users[i].name.len() > 0
        &&& forall|i: int, j: int|
            0 <= i < j < self.options.len() ==> (#[trigger] self.options[i]).id < (#[trigger] self.options[j]).id
        &&& forall|j: int|
            0 <= j < self.options.len() ==> (#[trigger] self.options[j]).id < self.next_option_id
                && self.options[j].symbol.len() > 0
        &&& forall|k: int|
            0 <= k < self.ownerships.len() ==> self.has_user((#[trigger] self.ownerships[k]).user_id)
                && self.has_option(self.ownerships[k].option_id) && self.ownerships[k].quantity >= 0
        &&& unique_pairs(self.ownerships)
    }

    // ---- users ----

    /// Why `create_user(name)` is rejected, if it is.
    pub open spec fn create_user_error(self, name: Seq<char>) -> Option<StoreError> {
        if name.len() == 0 {
            Some(StoreError::Validation)
        } else if self.next_user_id == u64::MAX {
            Some(StoreError::StorageWrite)
        } else {
            None
        }
    }

    /// The record that `create_user(name)` creates.
    pub open spec fn new_user(self, name: Seq<char>) -> UserModel {
        UserModel { id: self.next_user_id, name }
    }

    /// The state after `create_user(name)`.
    pub open spec fn after_create_user(self, name: Seq<char>) -> StoreModel {
        if self.create_user_error(name) is Some {
            self
        } else {
            StoreModel {
                users: self.users.push(self.new_user(name)),
                next_user_id: (self.next_user_id + 1) as u64,
                ..self
            }
        }
    }

    /// Why `delete_user(id)` is rejected, if it is.
    pub open spec fn delete_user_error(self, id: u64) -> Option<StoreError> {
        if self.has_user(id) {
            None
        } else {
            Some(StoreError::NotFound)
        }
    }

    /// The state after `delete_user(id)`: the user and all its rows are gone.
    pub open spec fn after_delete_user(self, id: u64) -> StoreModel {
        if self.has_user(id) {
            StoreModel {
                users: self.users.remove(self.user_position(id)),
                ownerships: kept_rows(self.ownerships, RowFilter::NotUser(id)),
                ..self
            }
        } else {
            self
        }
    }

    // ---- options ----

    /// Why `create_option(symbol)` is rejected, if it is.
    pub open spec fn create_option_error(self, symbol: Seq<char>) -> Option<StoreError> {
        if symbol.len() == 0 {
            Some(StoreError::Validation)
        } else if self.next_option_id == u64::MAX {
            Some(StoreError::StorageWrite)
        } else {
            None
        }
    }

    /// The record that `create_option(symbol)` creates.
    pub open spec fn new_option(self, symbol: Seq<char>) -> OptionModel {
        OptionModel { id: self.next_option_id, symbol }
    }

    /// The state after `create_option(symbol)`.
    pub open spec fn after_create_option(self, symbol: Seq<char>) -> StoreModel {
        if self.create_option_error(symbol) is Some {
            self
        } else {
            StoreModel {
                options: self.options.push(self.new_option(symbol)),
                next_option_id: (self.next_option_id + 1) as u64,
                ..self
            }
        }
    }

    /// Why `delete_option(id)` is rejected, if it is.
    pub open spec fn delete_option_error(self, id: u64) -> Option<StoreError> {
        if self.has_option(id) {
            None
        } else {
            Some(StoreError::NotFound)
        }
    }

    /// The state after `delete_option(id)`: the option and all its rows are gone.
    pub open spec fn after_delete_option(self, id: u64) -> StoreModel {
        if self.has_option(id) {
            StoreModel {
                options: self.options.remove(self.option_position(id)),
                ownerships: kept_rows(self.ownerships, RowFilter::NotOption(id)),
                ..self
            }
        } else {
            self
        }
    }

    // ---- ownerships ----

    /// Why `set_ownership(user_id, option_id, quantity)` is rejected, if it is.
    /// A negative quantity is rejected before the ids are looked up.
    pub open spec fn set_ownership_error(self, user_id: u64, option_id: u64, quantity: i64) -> Option<
        StoreError,
    > {
        if quantity < 0 {
            Some(StoreError::Validation)
        } else if !self.has_user(user_id) || !self.has_option(option_id) {
            Some(StoreError::NotFound)
        } else {
            None
        }
    }

    /// The ownership rows after the pair's row is set to `row`: the existing
    /// row is overwritten in place, or `row` is appended.
    pub open spec fn upserted(self, row: Ownership) -> Seq<Ownership> {
        if has_pair(self.ownerships, row.user_id, row.option_id) {
            self.ownerships.update(
                pair_position(self.ownerships, row.user_id, row.option_id),
                row,
            )
        } else {
            self.ownerships.push(row)
        }
    }

    /// The state after `set_ownership(user_id, option_id, quantity)`.
    pub open spec fn after_set_ownership(self, user_id: u64, option_id: u64, quantity: i64) -> StoreModel {
        if self.set_ownership_error(user_id, option_id, quantity) is Some {
            self
        } else {
            StoreModel {
                ownerships: self.upserted(
                    Ownership { user_id, option_id, quantity },
                ),
                ..self
            }
        }
    }

    /// The state after `delete_ownership(user_id, option_id)`.
    pub open spec fn after_delete_ownership(self, user_id: u64, option_id: u64) -> StoreModel {
        StoreModel {
            ownerships: kept_rows(self.ownerships, RowFilter::NotPair(user_id, option_id)),
            ..self
        }
    }

    // ---- matrix ----

    /// What the pair holds: the quantity of its row, or zero.
    pub open spec fn quantity_of(self, user_id: u64, option_id: u64) -> i64 {
        quantity_in(self.ownerships, user_id, option_id)
    }

    /// The dense grid: one row per user, one column per option, each in
    /// insertion order, each cell what the pair holds.
    pub open spec fn matrix_cells(self) -> Seq<Seq<i64>> {
        Seq::new(
            self.users.len(),
            |i: int|
                Seq::new(
                    self.options.len(),
                    |j: int| self.quantity_of(self.users[i].id, self.options[j].id),
                ),
        )
    }
}

} // verus!

verus! {

/// The rows that a removal keeps come from `s`, satisfy the filter, and
/// keep pairs unique.
pub proof fn lemma_kept_rows(s: Seq<Ownership>, f: RowFilter)
    ensures
        forall|k: int|
            0 <= k < kept_rows(s, f).len() ==> s.contains(#[trigger] kept_rows(s, f)[k]) && f.keeps(
                kept_rows(s, f)[k],
            ),
        unique_pairs(s) ==> unique_pairs(kept_rows(s, f)),
    decreases s.len(),
{
    reveal(Seq::filter);
    if s.len() > 0 {
        let d = s.drop_last();
        lemma_kept_rows(d, f);
        let prev = kept_rows(d, f);
        let cur = kept_rows(s, f);
        assert forall|k: int| 0 <= k < prev.len() implies s.contains(#[trigger] prev[k]) by {
            let t = choose|t: int| 0 <= t < d.len() && d[t] == prev[k];
            assert(s[t] == prev[k]);
        }
        if f.keeps(s.last()) {
            assert(cur == prev.push(s.last()));
            assert forall|k: int| 0 <= k < cur.len() implies s.contains(#[trigger] cur[k]) && f.keeps(
                cur[k],
            ) by {
                if k < prev.len() {
                    assert(cur[k] == prev[k]);
                } else {
                    assert(s[s.len() - 1] == cur[k]);
                }
            }
            if unique_pairs(s) {
                assert(unique_pairs(d)) by {
                    assert forall|k: int, l: int| 0 <= k < l < d.len() implies !(#[trigger] d[k]).is_for(
                        (#[trigger] d[l]).user_id,
                        d[l].option_id,
                    ) by {
                        assert(d[k] == s[k] && d[l] == s[l]);
                    }
                }
                assert forall|k: int, l: int| 0 <= k < l < cur.len() implies !(#[trigger] cur[k]).is_for(
                    (#[trigger] cur[l]).user_id,
                    cur[l].option_id,
                ) by {
                    if l < prev.len() {
                        assert(cur[k] == prev[k] && cur[l] == prev[l]);
                    } else {
                        assert(cur[k] == prev[k]);
                        assert(d.contains(prev[k]));
                        let t = choose|t: int| 0 <= t < d.len() && d[t] == prev[k];
                        assert(s[t] == prev[k]);
                        assert(cur[l] == s[s.len() - 1]);
                    }
                }
            }
        } else {
            assert(cur == prev);
            if unique_pairs(s) {
                assert forall|k: int, l: int| 0 <= k < l < d.len() implies !(#[trigger] d[k]).is_for(
                    (#[trigger] d[l]).user_id,
                    d[l].option_id,
                ) by {
                    assert(d[k] == s[k] && d[l] == s[l]);
                }
            }
        }
    }
}

/// A fresh store satisfies the invariants.
pub proof fn lemma_empty_wf()
    ensures
        StoreModel::empty().wf(),
{
}

/// Creating a user keeps the invariants.
pub proof fn lemma_create_user_wf(m: StoreModel, name: Seq<char>)
    requires
        m.wf(),
    ensures
        m.after_create_user(name).wf(),
{
    let n = m.after_create_user(name);
    if m.create_user_error(name) is None {
        assert forall|k: int| 0 <= k < n.ownerships.len() implies n.has_user(
            (#[trigger] n.ownerships[k]).user_id,
        ) by {
            let i = choose|i: int| 0 <= i < m.users.len() && (#[trigger] m.users[i]).id == n.ownerships[k].user_id;
            assert(n.users[i] == m.users[i]);
        }
        assert forall|k: int| 0 <= k < n.ownerships.len() implies n.has_option(
            (#[trigger] n.ownerships[k]).option_id,
        ) by {
            let j = choose|j: int| 0 <= j < m.options.len() && (#[trigger] m.options[j]).id == n.ownerships[k].option_id;
            assert(n.options[j] == m.options[j]);
        }
        assert forall|i: int| 0 <= i < m.users.len() implies #[trigger] n.users[i] == m.users[i] by {}
    }
}

/// Creating an option keeps the invariants.
pub proof fn lemma_create_option_wf(m: StoreModel, symbol: Seq<char>)
    requires
        m.wf(),
    ensures
        m.after_create_option(symbol).wf(),
{
    let n = m.after_create_option(symbol);
    if m.create_option_error(symbol) is None {
        assert forall|k: int| 0 <= k < n.ownerships.len() implies n.has_option(
            (#[trigger] n.ownerships[k]).option_id,
        ) by {
            let j = choose|j: int| 0 <= j < m.options.len() && (#[trigger] m.options[j]).id == n.ownerships[k].option_id;
            assert(n.options[j] == m.options[j]);
        }
        assert forall|k: int| 0 <= k < n.ownerships.len() implies n.has_user(
            (#[trigger] n.ownerships[k]).user_id,
        ) by {
            let i = choose|i: int| 0 <= i < m.users.len() && (#[trigger] m.users[i]).id == n.ownerships[k].user_id;
            assert(n.users[i] == m.users[i]);
        }
        assert forall|j: int| 0 <= j < m.options.len() implies #[trigger] n.options[j] == m.options[j] by {}
    }
}

/// Deleting a user, with its rows, keeps the invariants.
pub proof fn lemma_delete_user_wf(m: StoreModel, id: u64)
    requires
        m.wf(),
    ensures
        m.after_delete_user(id).wf(),
{
    if m.has_user(id) {
        let n = m.after_delete_user(id);
        let p = m.user_position(id);
        lemma_kept_rows(m.ownerships, RowFilter::NotUser(id));
        assert forall|i: int| 0 <= i < n.users.len() implies #[trigger] n.users[i] == m.users[
            if i < p { i } else { i + 1 }
        ] by {}
        assert forall|i: int, j: int| 0 <= i < j < n.users.len() implies (#[trigger] n.users[i]).id < (
        #[trigger] n.users[j]).id by {
            assert(n.users[i] == m.users[if i < p { i } else { i + 1 }]);
            assert(n.users[j] == m.users[if j < p { j } else { j + 1 }]);
        }
        assert forall|i: int| 0 <= i < n.users.len() implies (#[trigger] n.users[i]).id < n.next_user_id
            && n.users[i].name.len() > 0 by {
            assert(n.users[i] == m.users[if i < p { i } else { i + 1 }]);
        }
        assert forall|k: int| 0 <= k < n.ownerships.len() implies n.has_user(
            (#[trigger] n.ownerships[k]).user_id,
        ) && n.has_option(n.ownerships[k].option_id) && n.ownerships[k].quantity >= 0 by {
            let w = n.ownerships[k];
            let t = choose|t: int| 0 <= t < m.ownerships.len() && m.ownerships[t] == w;
            assert(m.ownerships[t] == w);
            let i = choose|i: int| 0 <= i < m.users.len() && (#[trigger] m.users[i]).id == w.user_id;
            assert(m.has_option(w.option_id) && w.quantity >= 0);
            assert(w.user_id != id);
            assert(m.users[p].id == id);
            assert(i != p);
            let i2 = if i < p { i } else { i - 1 };
            assert(n.users[i2] == m.users[i]);
            assert(n.has_user(w.user_id));
            let j = choose|j: int| 0 <= j < m.options.len() && (#[trigger] m.options[j]).id == w.option_id;
            assert(n.options[j] == m.options[j]);
        }
    }
}

/// Deleting an option, with its rows, keeps the invariants.
pub proof fn lemma_delete_option_wf(m: StoreModel, id: u64)
    requires
        m.wf(),
    ensures
        m.after_delete_option(id).wf(),
{
    if m.has_option(id) {
        let n = m.after_delete_option(id);
        let p = m.option_position(id);
        lemma_kept_rows(m.ownerships, RowFilter::NotOption(id));
        assert forall|j: int| 0 <= j < n.options.len() implies #[trigger] n.options[j] == m.options[
            if j < p { j } else { j + 1 }
        ] by {}
        assert forall|i: int, j: int| 0 <= i < j < n.options.len() implies (#[trigger] n.options[i]).id < (
        #[trigger] n.options[j]).id by {
            assert(n.options[i] == m.options[if i < p { i } else { i + 1 }]);
            assert(n.options[j] == m.options[if j < p { j } else { j + 1 }]);
        }
        assert forall|j: int| 0 <= j < n.options.len() implies (#[trigger] n.options[j]).id < n.next_option_id
            && n.options[j].symbol.len() > 0 by {
            assert(n.options[j] == m.options[if j < p { j } else { j + 1 }]);
        }
        assert forall|k: int| 0 <= k < n.ownerships.len() implies n.has_user(
            (#[trigger] n.ownerships[k]).user_id,
        ) && n.has_option(n.ownerships[k].option_id) && n.ownerships[k].quantity >= 0 by {
            let w = n.ownerships[k];
            let t = choose|t: int| 0 <= t < m.ownerships.len() && m.ownerships[t] == w;
            assert(m.ownerships[t] == w);
            let j = choose|j: int| 0 <= j < m.options.len() && (#[trigger] m.options[j]).id == w.option_id;
            assert(m.has_user(w.user_id) && w.quantity >= 0);
            assert(w.option_id != id);
            assert(m.options[p].id == id);
            assert(j != p);
            let j2 = if j < p { j } else { j - 1 };
            assert(n.options[j2] == m.options[j]);
            assert(n.has_option(w.option_id));
            let i = choose|i: int| 0 <= i < m.users.len() && (#[trigger] m.users[i]).id == w.user_id;
            assert(n.users[i] == m.users[i]);
        }
    }
}

/// Setting a quantity keeps the invariants.
pub proof fn lemma_set_ownership_wf(m: StoreModel, user_id: u64, option_id: u64, quantity: i64)
    requires
        m.wf(),
    ensures
        m.after_set_ownership(user_id, option_id, quantity).wf(),
{
    if m.set_ownership_error(user_id, option_id, quantity) is None {
        let n = m.after_set_ownership(user_id, option_id, quantity);
        let row = Ownership { user_id, option_id, quantity };
        assert(n.users == m.users && n.options == m.options);
        assert(m.has_user(user_id) && m.has_option(option_id));
        assert forall|uid: u64| m.has_user(uid) implies n.has_user(uid) by {
            let i = choose|i: int| 0 <= i < m.users.len() && (#[trigger] m.users[i]).id == uid;
            assert(n.users[i] == m.users[i]);
        }
        assert forall|oid: u64| m.has_option(oid) implies n.has_option(oid) by {
            let j = choose|j: int| 0 <= j < m.options.len() && (#[trigger] m.options[j]).id == oid;
            assert(n.options[j] == m.options[j]);
        }
        if has_pair(m.ownerships, user_id, option_id) {
            let p = pair_position(m.ownerships, user_id, option_id);
            assert forall|k: int| 0 <= k < n.ownerships.len() implies n.has_user(
                (#[trigger] n.ownerships[k]).user_id,
            ) && n.has_option(n.ownerships[k].option_id) && n.ownerships[k].quantity >= 0 by {
                if k != p {
                    assert(n.ownerships[k] == m.ownerships[k]);
                }
            }
            assert forall|k: int, l: int| 0 <= k < l < n.ownerships.len() implies !(
            #[trigger] n.ownerships[k]).is_for(
                (#[trigger] n.ownerships[l]).user_id,
                n.ownerships[l].option_id,
            ) by {
                assert(m.ownerships[k].is_for(n.ownerships[k].user_id, n.ownerships[k].option_id));
                assert(m.ownerships[l].is_for(n.ownerships[l].user_id, n.ownerships[l].option_id));
            }
        } else {
            assert forall|k: int| 0 <= k < n.ownerships.len() implies n.has_user(
                (#[trigger] n.ownerships[k]).user_id,
            ) && n.has_option(n.ownerships[k].option_id) && n.ownerships[k].quantity >= 0 by {
                if k < m.ownerships.len() {
                    assert(n.ownerships[k] == m.ownerships[k]);
                }
            }
            assert forall|k: int, l: int| 0 <= k < l < n.ownerships.len() implies !(
            #[trigger] n.ownerships[k]).is_for(
                (#[trigger] n.ownerships[l]).user_id,
                n.ownerships[l].option_id,
            ) by {
                assert(n.ownerships[k] == m.ownerships[k]);
                if l < m.ownerships.len() {
                    assert(n.ownerships[l] == m.ownerships[l]);
                }
            }
        }
    }
}

/// Deleting one row keeps the invariants.
pub proof fn lemma_delete_ownership_wf(m: StoreModel, user_id: u64, option_id: u64)
    requires
        m.wf(),
    ensures
        m.after_delete_ownership(user_id, option_id).wf(),
{
    let n = m.after_delete_ownership(user_id, option_id);
    lemma_kept_rows(m.ownerships, RowFilter::NotPair(user_id, option_id));
    assert forall|k: int| 0 <= k < n.ownerships.len() implies n.has_user(
        (#[trigger] n.ownerships[k]).user_id,
    ) && n.has_option(n.ownerships[k].option_id) && n.ownerships[k].quantity >= 0 by {
        let w = n.ownerships[k];
        let t = choose|t: int| 0 <= t < m.ownerships.len() && m.ownerships[t] == w;
        assert(m.ownerships[t] == w);
        let i = choose|i: int| 0 <= i < m.users.len() && (#[trigger] m.users[i]).id == w.user_id;
        assert(n.users[i] == m.users[i]);
        let j = choose|j: int| 0 <= j < m.options.len() && (#[trigger] m.options[j]).id == w.option_id;
        assert(n.options[j] == m.options[j]);
    }
}

} // verus!
