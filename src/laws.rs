use vstd::prelude::*;

use crate::error::StoreError;
use crate::model::{
    has_pair, lemma_kept_rows, lemma_set_ownership_wf, quantity_in,
    unique_pairs, RowFilter, StoreModel,
};
use crate::records::Ownership;

verus! {

/// With no row for the pair, the pair holds zero.
pub proof fn lemma_quantity_absent(s: Seq<Ownership>, user_id: u64, option_id: u64)
    requires
        !has_pair(s, user_id, option_id),
    ensures
        quantity_in(s, user_id, option_id) == 0,
    decreases s.len(),
{
    if s.len() > 0 {
        let d = s.drop_last();
        assert(!s[s.len() - 1].is_for(user_id, option_id));
        assert(!has_pair(d, user_id, option_id)) by {
            if has_pair(d, user_id, option_id) {
                let t = choose|t: int| 0 <= t < d.len() && (#[trigger] d[t]).is_for(user_id, option_id);
                assert(s[t] == d[t]);
            }
        }
        lemma_quantity_absent(d, user_id, option_id);
    }
}

/// With pairs unique, the pair holds the quantity of its row.
pub proof fn lemma_quantity_present(s: Seq<Ownership>, user_id: u64, option_id: u64, k: int)
    requires
        unique_pairs(s),
        0 <= k < s.len(),
        s[k].is_for(user_id, option_id),
    ensures
        quantity_in(s, user_id, option_id) == s[k].quantity,
    decreases s.len(),
{
    let l = s.len() - 1;
    if k < l {
        let d = s.drop_last();
        assert(!s[k].is_for(s[l].user_id, s[l].option_id));
        assert(unique_pairs(d)) by {
            assert forall|a: int, b: int| 0 <= a < b < d.len() implies !(#[trigger] d[a]).is_for(
                (#[trigger] d[b]).user_id,
                d[b].option_id,
            ) by {
                assert(d[a] == s[a] && d[b] == s[b]);
            }
        }
        assert(d[k] == s[k]);
        lemma_quantity_present(d, user_id, option_id, k);
    }
}

/// Round trip, first half: after a successful `create_user(name)`, the
/// user list holds the new record at its end, and no other entry has its id.
pub proof fn law_created_user_listed_once(m: StoreModel, name: Seq<char>)
    requires
        m.wf(),
        m.create_user_error(name) is None,
    ensures
        ({
            let s = m.after_create_user(name);
            let u = m.new_user(name);
            &&& s.users.len() == m.users.len() + 1
            &&& s.users[m.users.len() as int] == u
            &&& forall|i: int| 0 <= i < s.users.len() && (#[trigger] s.users[i]).id == u.id ==> i == m.users.len()
        }),
{
    let s = m.after_create_user(name);
    assert forall|i: int| 0 <= i < m.users.len() implies #[trigger] s.users[i] == m.users[i] by {}
}

/// Round trip, second half: after a successful `delete_user(id)`, no entry
/// of the user list has that id, and the others keep their order.
pub proof fn law_deleted_user_unlisted(m: StoreModel, id: u64)
    requires
        m.wf(),
        m.delete_user_error(id) is None,
    ensures
        ({
            let s = m.after_delete_user(id);
            &&& s.users.len() == m.users.len() - 1
            &&& forall|i: int| 0 <= i < s.users.len() ==> (#[trigger] s.users[i]).id != id
        }),
{
    let s = m.after_delete_user(id);
    let p = m.user_position(id);
    assert forall|i: int| 0 <= i < s.users.len() implies (#[trigger] s.users[i]).id != id by {
        let i2 = if i < p { i } else { i + 1 };
        assert(s.users[i] == m.users[i2]);
        if i2 < p {
            assert(m.users[i2].id < m.users[p].id);
        } else {
            assert(m.users[p].id < m.users[i2].id);
        }
    }
}

/// Cascade: after `set_ownership(user_id, option_id, quantity)` succeeds,
/// deleting that user leaves no row of the user, and deleting that option
/// leaves no row of the option.
pub proof fn law_delete_cascades(m: StoreModel, user_id: u64, option_id: u64, quantity: i64)
    requires
        m.wf(),
        m.set_ownership_error(user_id, option_id, quantity) is None,
    ensures
        ({
            let s = m.after_set_ownership(user_id, option_id, quantity);
            &&& s.delete_user_error(user_id) is None
            &&& forall|k: int|
                0 <= k < s.after_delete_user(user_id).ownerships.len()
                    ==> (#[trigger] s.after_delete_user(user_id).ownerships[k]).user_id != user_id
            &&& s.delete_option_error(option_id) is None
            &&& forall|k: int|
                0 <= k < s.after_delete_option(option_id).ownerships.len()
                    ==> (#[trigger] s.after_delete_option(option_id).ownerships[k]).option_id != option_id
        }),
{
    let s = m.after_set_ownership(user_id, option_id, quantity);
    assert(s.users == m.users && s.options == m.options);
    lemma_kept_rows(s.ownerships, RowFilter::NotUser(user_id));
    lemma_kept_rows(s.ownerships, RowFilter::NotOption(option_id));
}

/// Upsert: setting a pair twice leaves exactly one row for it, holding the
/// second quantity, and no more rows than the first setting left.
pub proof fn law_set_ownership_twice(
    m: StoreModel,
    user_id: u64,
    option_id: u64,
    first: i64,
    second: i64,
)
    requires
        m.wf(),
        m.set_ownership_error(user_id, option_id, first) is None,
        second >= 0,
    ensures
        ({
            let s1 = m.after_set_ownership(user_id, option_id, first);
            let s2 = s1.after_set_ownership(user_id, option_id, second);
            &&& s1.set_ownership_error(user_id, option_id, second) is None
            &&& s2.ownerships.len() == s1.ownerships.len()
            &&& exists|k: int|
                0 <= k < s2.ownerships.len() && #[trigger] s2.ownerships[k] == (Ownership {
                    user_id,
                    option_id,
                    quantity: second,
                }) && forall|l: int|
                    0 <= l < s2.ownerships.len() && (#[trigger] s2.ownerships[l]).is_for(user_id, option_id)
                        ==> l == k
        }),
{
    lemma_set_ownership_wf(m, user_id, option_id, first);
    let s1 = m.after_set_ownership(user_id, option_id, first);
    let row1 = Ownership { user_id, option_id, quantity: first };
    assert(s1.users == m.users && s1.options == m.options);
    // the first setting left a row for the pair
    let k1: int = if has_pair(m.ownerships, user_id, option_id) {
        crate::model::pair_position(m.ownerships, user_id, option_id)
    } else {
        m.ownerships.len() as int
    };
    assert(s1.ownerships[k1] == row1);
    assert(has_pair(s1.ownerships, user_id, option_id));
    lemma_set_ownership_wf(s1, user_id, option_id, second);
    let s2 = s1.after_set_ownership(user_id, option_id, second);
    let k = crate::model::pair_position(s1.ownerships, user_id, option_id);
    assert(s2.ownerships[k] == (Ownership { user_id, option_id, quantity: second }));
    assert forall|l: int|
        0 <= l < s2.ownerships.len() && (#[trigger] s2.ownerships[l]).is_for(user_id, option_id)
            implies l == k by {
        if l < k {
            assert(!s2.ownerships[l].is_for(s2.ownerships[k].user_id, s2.ownerships[k].option_id));
        } else if l > k {
            assert(!s2.ownerships[k].is_for(s2.ownerships[l].user_id, s2.ownerships[l].option_id));
        }
    }
}

/// Completeness: the grid has one row per user and one column per option,
/// and each cell is the quantity of the pair's row, or zero where the pair
/// has none.
pub proof fn law_matrix_complete(m: StoreModel)
    requires
        m.wf(),
    ensures
        m.matrix_cells().len() == m.users.len(),
        forall|i: int|
            0 <= i < m.users.len() ==> (#[trigger] m.matrix_cells()[i]).len() == m.options.len(),
        forall|i: int, j: int|
            0 <= i < m.users.len() && 0 <= j < m.options.len() && !has_pair(
                m.ownerships,
                m.users[i].id,
                m.options[j].id,
            ) ==> #[trigger] m.matrix_cells()[i][j] == 0,
        forall|i: int, j: int, k: int|
            0 <= i < m.users.len() && 0 <= j < m.options.len() && 0 <= k < m.ownerships.len()
                && (#[trigger] m.ownerships[k]).is_for(m.users[i].id, m.options[j].id)
                ==> #[trigger] m.matrix_cells()[i][j] == m.ownerships[k].quantity,
{
    assert forall|i: int, j: int|
        0 <= i < m.users.len() && 0 <= j < m.options.len() && !has_pair(
            m.ownerships,
            m.users[i].id,
            m.options[j].id,
        ) implies #[trigger] m.matrix_cells()[i][j] == 0 by {
        lemma_quantity_absent(m.ownerships, m.users[i].id, m.options[j].id);
    }
    assert forall|i: int, j: int, k: int|
        0 <= i < m.users.len() && 0 <= j < m.options.len() && 0 <= k < m.ownerships.len()
            && (#[trigger] m.ownerships[k]).is_for(m.users[i].id, m.options[j].id)
            implies #[trigger] m.matrix_cells()[i][j] == m.ownerships[k].quantity by {
        lemma_quantity_present(m.ownerships, m.users[i].id, m.options[j].id, k);
    }
}

/// A negative quantity is rejected with `Validation` and changes nothing.
pub proof fn law_negative_quantity_rejected(
    m: StoreModel,
    user_id: u64,
    option_id: u64,
    quantity: i64,
)
    requires
        quantity < 0,
    ensures
        m.set_ownership_error(user_id, option_id, quantity) == Some(StoreError::Validation),
        m.after_set_ownership(user_id, option_id, quantity) == m,
{
}

/// Setting a quantity for an unknown user or an unknown option is rejected
/// with `NotFound` and leaves the rows unchanged.
pub proof fn law_unknown_id_rejected(m: StoreModel, user_id: u64, option_id: u64, quantity: i64)
    requires
        quantity >= 0,
        !m.has_user(user_id) || !m.has_option(option_id),
    ensures
        m.set_ownership_error(user_id, option_id, quantity) == Some(StoreError::NotFound),
        m.after_set_ownership(user_id, option_id, quantity).ownerships == m.ownerships,
{
}

} // verus!
