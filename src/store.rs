use vstd::prelude::*;

use crate::error::StoreError;
use crate::model::{
    filter_rows, has_pair, lemma_create_option_wf, lemma_create_user_wf,
    lemma_delete_option_wf, lemma_delete_ownership_wf, lemma_delete_user_wf, lemma_empty_wf,
    lemma_set_ownership_wf, pair_position, quantity_in, RowFilter, StoreModel,
};
use crate::records::{
    copy_options, copy_users, options_model, users_model, OptionRecord, Ownership, User,
};

verus! {

/// The store: users, options and ownership rows, each kept in insertion
/// order, and the ids that the next records will get.
pub struct Store {
    users: Vec<User>,
    options: Vec<OptionRecord>,
    ownerships: Vec<Ownership>,
    next_user_id: u64,
    next_option_id: u64,
}

/// The dense users-by-options grid: `cells[i][j]` is what `users[i]` holds
/// of `options[j]`, zero where no row exists.
#[derive(Debug, PartialEq, Eq)]
pub struct MatrixView {
    pub users: Vec<User>,
    pub options: Vec<OptionRecord>,
    pub cells: Vec<Vec<i64>>,
}

/// The abstract value of the grid's rows.
pub open spec fn cells_model(c: Seq<Vec<i64>>) -> Seq<Seq<i64>> {
    c.map_values(|r: Vec<i64>| r@)
}

impl View for Store {
    type V = StoreModel;

    closed spec fn view(&self) -> StoreModel {
        StoreModel {
            users: users_model(self.users@),
            options: options_model(self.options@),
            ownerships: self.ownerships@,
            next_user_id: self.next_user_id,
            next_option_id: self.next_option_id,
        }
    }
}

impl Store {
    /// The store's invariants hold.
    pub open spec fn wf(&self) -> bool {
        self@.wf()
    }

    /// An empty store. Ids start at one.
    pub fn new() -> (r: Store)
        ensures
            r@ == StoreModel::empty(),
            r.wf(),
    {
        let r = Store {
            users: Vec::new(),
            options: Vec::new(),
            ownerships: Vec::new(),
            next_user_id: 1,
            next_option_id: 1,
        };
        proof {
            lemma_empty_wf();
            assert(r@.users =~= Seq::empty());
            assert(r@.options =~= Seq::empty());
        }
        r
    }

    /// The position of the user with this id, by binary search over the
    /// increasing ids.
    fn user_index(&self, id: u64) -> (r: Option<usize>)
        requires
            self.wf(),
        ensures
            match r {
                Some(i) => i < self@.users.len() && self@.users[i as int].id == id,
                None => !self@.has_user(id),
            },
    {
        let mut lo: usize = 0;
        let mut hi: usize = self.users.len();
        while lo < hi
            invariant
                self.wf(),
                lo <= hi <= self@.users.len(),
                self@.users.len() == self.users@.len(),
                forall|i: int| 0 <= i < lo ==> (#[trigger] self@.users[i]).id < id,
                forall|i: int| hi <= i < self@.users.len() ==> (#[trigger] self@.users[i]).id > id,
            decreases hi - lo,
        {
            let mid = lo + (hi - lo) / 2;
            let mid_id = self.users[mid].id;
            assert(mid_id == self@.users[mid as int].id);
            if mid_id == id {
                return Some(mid);
            } else if mid_id < id {
                lo = mid + 1;
            } else {
                hi = mid;
            }
        }
        None
    }

    /// The position of the option with this id, by binary search over the
    /// increasing ids.
    fn option_index(&self, id: u64) -> (r: Option<usize>)
        requires
            self.wf(),
        ensures
            match r {
                Some(j) => j < self@.options.len() && self@.options[j as int].id == id,
                None => !self@.has_option(id),
            },
    {
        let mut lo: usize = 0;
        let mut hi: usize = self.options.len();
        while lo < hi
            invariant
                self.wf(),
                lo <= hi <= self@.options.len(),
                self@.options.len() == self.options@.len(),
                forall|j: int| 0 <= j < lo ==> (#[trigger] self@.options[j]).id < id,
                forall|j: int| hi <= j < self@.options.len() ==> (#[trigger] self@.options[j]).id > id,
            decreases hi - lo,
        {
            let mid = lo + (hi - lo) / 2;
            let mid_id = self.options[mid].id;
            assert(mid_id == self@.options[mid as int].id);
            if mid_id == id {
                return Some(mid);
            } else if mid_id < id {
                lo = mid + 1;
            } else {
                hi = mid;
            }
        }
        None
    }
    /// The position of the pair's row, by a scan of the rows.
    fn pair_index(&self, user_id: u64, option_id: u64) -> (r: Option<usize>)
        ensures
            match r {
                Some(k) => k < self@.ownerships.len() && self@.ownerships[k as int].is_for(
                    user_id,
                    option_id,
                ),
                None => !has_pair(self@.ownerships, user_id, option_id),
            },
    {
        let mut k: usize = 0;
        while k < self.ownerships.len()
            invariant
                k <= self@.ownerships.len(),
                forall|t: int| 0 <= t < k ==> !(#[trigger] self@.ownerships[t]).is_for(user_id, option_id),
            decreases self@.ownerships.len() - k,
        {
            if self.ownerships[k].user_id == user_id && self.ownerships[k].option_id == option_id {
                return Some(k);
            }
            k = k + 1;
        }
        None
    }

    /// Adds a user named `name` under the next id and returns it. An empty
    /// name is rejected with `Validation`; a used-up id space with
    /// `StorageWrite`. On rejection the store is unchanged.
    pub fn create_user(&mut self, name: String) -> (r: Result<User, StoreError>)
        requires
            old(self).wf(),
        ensures
            final(self).wf(),
            final(self)@ == old(self)@.after_create_user(name@),
            match r {
                Ok(u) => old(self)@.create_user_error(name@) is None && u@ == old(self)@.new_user(
                    name@,
                ),
                Err(e) => old(self)@.create_user_error(name@) == Some(e),
            },
    {
        proof {
            lemma_create_user_wf(self@, name@);
        }
        if name.as_str().is_empty() {
            return Err(StoreError::Validation);
        }
        if self.next_user_id == u64::MAX {
            return Err(StoreError::StorageWrite);
        }
        let user = User { id: self.next_user_id, name };
        let r = user.copy_record();
        let ghost before = self.users@;
        self.users.push(user);
        self.next_user_id = self.next_user_id + 1;
        proof {
            assert(users_model(self.users@) =~= users_model(before).push(r@));
        }
        Ok(r)
    }

    /// All users, in the order they were created.
    pub fn list_users(&self) -> (r: Vec<User>)
        ensures
            users_model(r@) == self@.users,
    {
        copy_users(&self.users)
    }

    /// Removes the user with this id together with every ownership row of
    /// that user. An unknown id is rejected with `NotFound`, leaving the
    /// store unchanged.
    pub fn delete_user(&mut self, id: u64) -> (r: Result<(), StoreError>)
        requires
            old(self).wf(),
        ensures
            final(self).wf(),
            final(self)@ == old(self)@.after_delete_user(id),
            match r {
                Ok(_) => old(self)@.delete_user_error(id) is None,
                Err(e) => old(self)@.delete_user_error(id) == Some(e),
            },
    {
        proof {
            lemma_delete_user_wf(self@, id);
        }
        match self.user_index(id) {
            None => Err(StoreError::NotFound),
            Some(i) => {
                let ghost m = self@;
                proof {
                    let p = m.user_position(id);
                    assert(m.users[i as int].id == id);
                    if p < i {
                        assert(m.users[p].id < m.users[i as int].id);
                    } else if p > i {
                        assert(m.users[i as int].id < m.users[p].id);
                    }
                    assert(p == i);
                }
                let ghost before = self.users@;
                self.users.remove(i);
                self.ownerships = filter_rows(&self.ownerships, RowFilter::NotUser(id));
                proof {
                    assert(users_model(self.users@) =~= users_model(before).remove(i as int));
                    assert(self@ == m.after_delete_user(id));
                }
                Ok(())
            },
        }
    }

    /// Adds an option identified by `symbol` under the next id and returns
    /// it. An empty symbol is rejected with `Validation`; a used-up id space
    /// with `StorageWrite`. On rejection the store is unchanged.
    pub fn create_option(&mut self, symbol: String) -> (r: Result<OptionRecord, StoreError>)
        requires
            old(self).wf(),
        ensures
            final(self).wf(),
            final(self)@ == old(self)@.after_create_option(symbol@),
            match r {
                Ok(o) => old(self)@.create_option_error(symbol@) is None && o@
                    == old(self)@.new_option(symbol@),
                Err(e) => old(self)@.create_option_error(symbol@) == Some(e),
            },
    {
        proof {
            lemma_create_option_wf(self@, symbol@);
        }
        if symbol.as_str().is_empty() {
            return Err(StoreError::Validation);
        }
        if self.next_option_id == u64::MAX {
            return Err(StoreError::StorageWrite);
        }
        let option = OptionRecord { id: self.next_option_id, symbol };
        let r = option.copy_record();
        let ghost before = self.options@;
        self.options.push(option);
        self.next_option_id = self.next_option_id + 1;
        proof {
            assert(options_model(self.options@) =~= options_model(before).push(r@));
        }
        Ok(r)
    }

    /// All options, in the order they were created.
    pub fn list_options(&self) -> (r: Vec<OptionRecord>)
        ensures
            options_model(r@) == self@.options,
    {
        copy_options(&self.options)
    }

    /// Removes the option with this id together with every ownership row of
    /// that option. An unknown id is rejected with `NotFound`, leaving the
    /// store unchanged.
    pub fn delete_option(&mut self, id: u64) -> (r: Result<(), StoreError>)
        requires
            old(self).wf(),
        ensures
            final(self).wf(),
            final(self)@ == old(self)@.after_delete_option(id),
            match r {
                Ok(_) => old(self)@.delete_option_error(id) is None,
                Err(e) => old(self)@.delete_option_error(id) == Some(e),
            },
    {
        proof {
            lemma_delete_option_wf(self@, id);
        }
        match self.option_index(id) {
            None => Err(StoreError::NotFound),
            Some(j) => {
                let ghost m = self@;
                proof {
                    let p = m.option_position(id);
                    assert(m.options[j as int].id == id);
                    if p < j {
                        assert(m.options[p].id < m.options[j as int].id);
                    } else if p > j {
                        assert(m.options[j as int].id < m.options[p].id);
                    }
                    assert(p == j);
                }
                let ghost before = self.options@;
                self.options.remove(j);
                self.ownerships = filter_rows(&self.ownerships, RowFilter::NotOption(id));
                proof {
                    assert(options_model(self.options@) =~= options_model(before).remove(j as int));
                    assert(self@ == m.after_delete_option(id));
                }
                Ok(())
            },
        }
    }
    /// Sets what user `user_id` holds of option `option_id` to `quantity`:
    /// the pair's row is overwritten in place, or a new row is appended.
    /// A negative quantity is rejected with `Validation`; an unknown user or
    /// option with `NotFound`. On rejection the store is unchanged.
    pub fn set_ownership(&mut self, user_id: u64, option_id: u64, quantity: i64) -> (r: Result<
        Ownership,
        StoreError,
    >)
        requires
            old(self).wf(),
        ensures
            final(self).wf(),
            final(self)@ == old(self)@.after_set_ownership(user_id, option_id, quantity),
            match r {
                Ok(w) => old(self)@.set_ownership_error(user_id, option_id, quantity) is None && w
                    == (Ownership { user_id, option_id, quantity }),
                Err(e) => old(self)@.set_ownership_error(user_id, option_id, quantity) == Some(e),
            },
    {
        proof {
            lemma_set_ownership_wf(self@, user_id, option_id, quantity);
        }
        if quantity < 0 {
            return Err(StoreError::Validation);
        }
        let user_at = self.user_index(user_id);
        let option_at = self.option_index(option_id);
        match (user_at, option_at) {
            (Some(i), Some(j)) => {
                assert(self@.users[i as int].id == user_id);
                assert(self@.options[j as int].id == option_id);
            },
            _ => {
                return Err(StoreError::NotFound);
            },
        }
        let row = Ownership { user_id, option_id, quantity };
        let ghost m = self@;
        assert(m.set_ownership_error(user_id, option_id, quantity) is None);
        match self.pair_index(user_id, option_id) {
            Some(k) => {
                proof {
                    assert(has_pair(m.ownerships, user_id, option_id));
                    let p = pair_position(m.ownerships, user_id, option_id);
                    if p < k {
                        assert(!m.ownerships[p].is_for(
                            m.ownerships[k as int].user_id,
                            m.ownerships[k as int].option_id,
                        ));
                    } else if p > k {
                        assert(!m.ownerships[k as int].is_for(
                            m.ownerships[p].user_id,
                            m.ownerships[p].option_id,
                        ));
                    }
                    assert(p == k);
                }
                self.ownerships.set(k, row);
                proof {
                    assert(self@.ownerships =~= m.ownerships.update(k as int, row));
                }
            },
            None => {
                self.ownerships.push(row);
            },
        }
        proof {
            assert(self@ == m.after_set_ownership(user_id, option_id, quantity));
        }
        Ok(row)
    }

    /// All ownership rows: pairs in the order they were first set.
    pub fn get_ownerships(&self) -> (r: Vec<Ownership>)
        ensures
            r@ == self@.ownerships,
    {
        let mut r: Vec<Ownership> = Vec::new();
        let mut k: usize = 0;
        while k < self.ownerships.len()
            invariant
                k <= self.ownerships@.len(),
                r@ == self.ownerships@.take(k as int),
            decreases self.ownerships@.len() - k,
        {
            r.push(self.ownerships[k]);
            proof {
                assert(self.ownerships@.take(k + 1) =~= self.ownerships@.take(k as int).push(
                    self.ownerships@[k as int],
                ));
            }
            k = k + 1;
        }
        assert(self.ownerships@.take(k as int) =~= self.ownerships@);
        r
    }

    /// Removes the row of the pair, if there is one; otherwise nothing
    /// changes. Never fails: having no row and holding zero read the same.
    pub fn delete_ownership(&mut self, user_id: u64, option_id: u64)
        requires
            old(self).wf(),
        ensures
            final(self).wf(),
            final(self)@ == old(self)@.after_delete_ownership(user_id, option_id),
    {
        proof {
            lemma_delete_ownership_wf(self@, user_id, option_id);
        }
        self.ownerships = filter_rows(&self.ownerships, RowFilter::NotPair(user_id, option_id));
    }

    /// One row of the grid: what user `user_id` holds of each option, in
    /// option order.
    fn matrix_row(&self, user_id: u64) -> (row: Vec<i64>)
        requires
            self.wf(),
        ensures
            row@ == Seq::new(
                self@.options.len(),
                |j: int| self@.quantity_of(user_id, self@.options[j].id),
            ),
    {
        let n = self.options.len();
        let mut row: Vec<i64> = Vec::new();
        let mut j: usize = 0;
        while j < n
            invariant
                j <= n,
                n == self@.options.len(),
                row@.len() == j,
                forall|t: int| 0 <= t < j ==> row@[t] == 0,
            decreases n - j,
        {
            row.push(0);
            j = j + 1;
        }
        let ghost rows = self.ownerships@;
        let mut k: usize = 0;
        while k < self.ownerships.len()
            invariant
                self.wf(),
                rows == self.ownerships@,
                rows == self@.ownerships,
                k <= rows.len(),
                n == self@.options.len(),
                row@.len() == n,
                forall|t: int|
                    0 <= t < n ==> row@[t] == quantity_in(
                        rows.take(k as int),
                        user_id,
                        #[trigger] self@.options[t].id,
                    ),
            decreases rows.len() - k,
        {
            let w = self.ownerships[k];
            let ghost prev = row@;
            proof {
                assert(rows.take(k + 1).drop_last() =~= rows.take(k as int));
                assert(rows.take(k + 1).last() == w);
            }
            if w.user_id == user_id {
                match self.option_index(w.option_id) {
                    Some(col) => {
                        row.set(col, w.quantity);
                        proof {
                            assert forall|t: int| 0 <= t < n implies row@[t] == quantity_in(
                                rows.take(k + 1),
                                user_id,
                                #[trigger] self@.options[t].id,
                            ) by {
                                if t < col {
                                    assert(self@.options[t].id < self@.options[col as int].id);
                                } else if t > col {
                                    assert(self@.options[col as int].id < self@.options[t].id);
                                }
                            }
                        }
                    },
                    None => {
                        assert forall|t: int| 0 <= t < n implies row@[t] == quantity_in(
                            rows.take(k + 1),
                            user_id,
                            #[trigger] self@.options[t].id,
                        ) by {
                            assert(self@.options[t].id != w.option_id);
                        }
                    },
                }
            } else {
                assert forall|t: int| 0 <= t < n implies row@[t] == quantity_in(
                    rows.take(k + 1),
                    user_id,
                    #[trigger] self@.options[t].id,
                ) by {}
            }
            k = k + 1;
        }
        proof {
            assert(rows.take(rows.len() as int) =~= rows);
            assert(row@ =~= Seq::new(
                self@.options.len(),
                |j: int| self@.quantity_of(user_id, self@.options[j].id),
            ));
        }
        row
    }

    /// The dense grid: every user as a row and every option as a column,
    /// each in creation order, every cell present, zero where the pair has
    /// no row.
    pub fn get_matrix_view(&self) -> (r: MatrixView)
        requires
            self.wf(),
        ensures
            users_model(r.users@) == self@.users,
            options_model(r.options@) == self@.options,
            cells_model(r.cells@) == self@.matrix_cells(),
    {
        let mut cells: Vec<Vec<i64>> = Vec::new();
        let mut i: usize = 0;
        while i < self.users.len()
            invariant
                self.wf(),
                i <= self.users@.len(),
                self@.users.len() == self.users@.len(),
                cells@.len() == i,
                forall|t: int| 0 <= t < i ==> (#[trigger] cells@[t])@ == self@.matrix_cells()[t],
            decreases self.users@.len() - i,
        {
            let row = self.matrix_row(self.users[i].id);
            proof {
                assert(self.users@[i as int].id == self@.users[i as int].id);
                assert(row@ =~= self@.matrix_cells()[i as int]);
            }
            cells.push(row);
            i = i + 1;
        }
        proof {
            assert(cells_model(cells@) =~= self@.matrix_cells());
        }
        MatrixView { users: copy_users(&self.users), options: copy_options(&self.options), cells }
    }
    /// The id that the next user will get.
    pub fn next_user_id(&self) -> (r: u64)
        ensures
            r == self@.next_user_id,
    {
        self.next_user_id
    }

    /// The id that the next option will get.
    pub fn next_option_id(&self) -> (r: u64)
        ensures
            r == self@.next_option_id,
    {
        self.next_option_id
    }

    /// Rebuilds a store from saved parts: the three relations in their
    /// order and the next ids. Succeeds exactly when the parts satisfy the
    /// store's invariants; otherwise fails with `StorageRead`.
    pub fn from_parts(
        users: Vec<User>,
        options: Vec<OptionRecord>,
        ownerships: Vec<Ownership>,
        next_user_id: u64,
        next_option_id: u64,
    ) -> (r: Result<Store, StoreError>)
        ensures
            ({
                let m = StoreModel {
                    users: users_model(users@),
                    options: options_model(options@),
                    ownerships: ownerships@,
                    next_user_id,
                    next_option_id,
                };
                match r {
                    Ok(s) => m.wf() && s@ == m,
                    Err(e) => !m.wf() && e == StoreError::StorageRead,
                }
            }),
    {
        let ghost m = StoreModel {
            users: users_model(users@),
            options: options_model(options@),
            ownerships: ownerships@,
            next_user_id,
            next_option_id,
        };
        let mut i: usize = 0;
        while i < users.len()
            invariant
                m == (StoreModel {
                    users: users_model(users@),
                    options: options_model(options@),
                    ownerships: ownerships@,
                    next_user_id,
                    next_option_id,
                }),
                i <= users@.len(),
                m.users.len() == users@.len(),
                forall|a: int, b: int| 0 <= a < b < i ==> (#[trigger] m.users[a]).id < (#[trigger] m.users[b]).id,
                forall|a: int| 0 <= a < i ==> (#[trigger] m.users[a]).id < next_user_id && m.users[a].name.len() > 0,
            decreases users@.len() - i,
        {
            assert(m.users[i as int] == users@[i as int]@);
            if users[i].name.as_str().is_empty() || users[i].id >= next_user_id {
                return Err(StoreError::StorageRead);
            }
            if i > 0 {
                assert(m.users[i - 1] == users@[i - 1]@);
                if users[i - 1].id >= users[i].id {
                    return Err(StoreError::StorageRead);
                }
            }
            i = i + 1;
        }
        let mut j: usize = 0;
        while j < options.len()
            invariant
                m == (StoreModel {
                    users: users_model(users@),
                    options: options_model(options@),
                    ownerships: ownerships@,
                    next_user_id,
                    next_option_id,
                }),
                forall|a: int, b: int| 0 <= a < b < m.users.len() ==> (#[trigger] m.users[a]).id < (#[trigger] m.users[b]).id,
                forall|a: int| 0 <= a < m.users.len() ==> (#[trigger] m.users[a]).id < next_user_id && m.users[a].name.len() > 0,
                j <= options@.len(),
                m.options.len() == options@.len(),
                forall|a: int, b: int| 0 <= a < b < j ==> (#[trigger] m.options[a]).id < (#[trigger] m.options[b]).id,
                forall|a: int| 0 <= a < j ==> (#[trigger] m.options[a]).id < next_option_id && m.options[a].symbol.len() > 0,
            decreases options@.len() - j,
        {
            assert(m.options[j as int] == options@[j as int]@);
            if options[j].symbol.as_str().is_empty() || options[j].id >= next_option_id {
                return Err(StoreError::StorageRead);
            }
            if j > 0 {
                assert(m.options[j - 1] == options@[j - 1]@);
                if options[j - 1].id >= options[j].id {
                    return Err(StoreError::StorageRead);
                }
            }
            j = j + 1;
        }
        let mut s = Store { users, options, ownerships: Vec::new(), next_user_id, next_option_id };
        proof {
            assert(m.ownerships.take(0) =~= Seq::<Ownership>::empty());
            assert(s@ == (StoreModel { ownerships: m.ownerships.take(0), ..m }));
        }
        let mut k: usize = 0;
        while k < ownerships.len()
            invariant
                m == (StoreModel {
                    users: users_model(users@),
                    options: options_model(options@),
                    ownerships: ownerships@,
                    next_user_id,
                    next_option_id,
                }),
                k <= ownerships@.len(),
                ownerships@ == m.ownerships,
                s@ == (StoreModel { ownerships: m.ownerships.take(k as int), ..m }),
                s.wf(),
            decreases ownerships@.len() - k,
        {
            let w = ownerships[k];
            let ghost prefix = s@.ownerships;
            assert(w == m.ownerships[k as int]);
            assert(s@.users == m.users && s@.options == m.options);
            if w.quantity < 0 {
                return Err(StoreError::StorageRead);
            }
            match s.user_index(w.user_id) {
                None => {
                    assert(!m.has_user(w.user_id));
                    return Err(StoreError::StorageRead);
                },
                Some(ui) => {
                    assert(s@.users[ui as int].id == w.user_id);
                },
            }
            match s.option_index(w.option_id) {
                None => {
                    assert(!m.has_option(w.option_id));
                    return Err(StoreError::StorageRead);
                },
                Some(oi) => {
                    assert(s@.options[oi as int].id == w.option_id);
                },
            }
            match s.pair_index(w.user_id, w.option_id) {
                Some(t) => {
                    proof {
                        assert(m.ownerships[t as int] == prefix[t as int]);
                        assert(m.ownerships[t as int].is_for(
                            m.ownerships[k as int].user_id,
                            m.ownerships[k as int].option_id,
                        ));
                    }
                    return Err(StoreError::StorageRead);
                },
                None => {},
            }
            s.ownerships.push(w);
            proof {
                assert(s@.users == m.users && s@.options == m.options);
                assert(m.has_user(w.user_id) && m.has_option(w.option_id));
                assert forall|a: int| 0 <= a < s@.ownerships.len() implies s@.has_user(
                    (#[trigger] s@.ownerships[a]).user_id,
                ) && s@.has_option(s@.ownerships[a].option_id) && s@.ownerships[a].quantity >= 0 by {
                    if a < k {
                        assert(s@.ownerships[a] == prefix[a]);
                    }
                }
                assert(s@.ownerships =~= m.ownerships.take(k + 1));
                assert forall|a: int, b: int| 0 <= a < b < s@.ownerships.len() implies !(
                #[trigger] s@.ownerships[a]).is_for(
                    (#[trigger] s@.ownerships[b]).user_id,
                    s@.ownerships[b].option_id,
                ) by {
                    if b < k {
                        assert(s@.ownerships[a] == prefix[a] && s@.ownerships[b] == prefix[b]);
                    } else {
                        assert(s@.ownerships[a] == prefix[a]);
                    }
                }
            }
            k = k + 1;
        }
        proof {
            assert(m.ownerships.take(k as int) =~= m.ownerships);
        }
        Ok(s)
    }
}

} // verus!
