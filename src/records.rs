use vstd::prelude::*;

verus! {

/// A person who may hold options. The id is assigned by the store.
#[derive(Debug, PartialEq, Eq)]
pub struct User {
    pub id: u64,
    pub name: String,
}

/// The abstract value of a `User`.
pub ghost struct UserModel {
    pub id: u64,
    pub name: Seq<char>,
}

impl View for User {
    type V = UserModel;

    open spec fn view(&self) -> UserModel {
        UserModel { id: self.id, name: self.name@ }
    }
}

impl User {
    /// A field-by-field copy.
    pub fn copy_record(&self) -> (r: User)
        ensures
            r@ == self@,
    {
        User { id: self.id, name: self.name.clone() }
    }
}

/// An option instrument; `symbol` is its identifying text, kept as given.
#[derive(Debug, PartialEq, Eq)]
pub struct OptionRecord {
    pub id: u64,
    pub symbol: String,
}

/// The abstract value of an `OptionRecord`.
pub ghost struct OptionModel {
    pub id: u64,
    pub symbol: Seq<char>,
}

impl View for OptionRecord {
    type V = OptionModel;

    open spec fn view(&self) -> OptionModel {
        OptionModel { id: self.id, symbol: self.symbol@ }
    }
}

impl OptionRecord {
    /// A field-by-field copy.
    pub fn copy_record(&self) -> (r: OptionRecord)
        ensures
            r@ == self@,
    {
        OptionRecord { id: self.id, symbol: self.symbol.clone() }
    }
}

/// How much of one option one user holds. A quantity of zero is kept as a
/// row of its own: setting a quantity never removes a row.
#[derive(Clone, Copy, Debug, PartialEq, Eq, Structural)]
pub struct Ownership {
    pub user_id: u64,
    pub option_id: u64,
    pub quantity: i64,
}

impl Ownership {
    /// The row belongs to the pair (`user_id`, `option_id`).
    pub open spec fn is_for(self, user_id: u64, option_id: u64) -> bool {
        self.user_id == user_id && self.option_id == option_id
    }
}

/// The abstract values of a sequence of users.
pub open spec fn users_model(v: Seq<User>) -> Seq<UserModel> {
    v.map_values(|u: User| u@)
}

/// The abstract values of a sequence of options.
pub open spec fn options_model(v: Seq<OptionRecord>) -> Seq<OptionModel> {
    v.map_values(|o: OptionRecord| o@)
}

/// Copies every user of `v`, in order.
pub fn copy_users(v: &Vec<User>) -> (r: Vec<User>)
    ensures
        users_model(r@) == users_model(v@),
{
    let mut r: Vec<User> = Vec::new();
    let mut i: usize = 0;
    while i < v.len()
        invariant
            i <= v@.len(),
            r@.len() == i,
            forall|j: int| 0 <= j < i ==> r@[j]@ == v@[j]@,
        decreases v@.len() - i,
    {
        r.push(v[i].copy_record());
        i = i + 1;
    }
    assert(users_model(r@) =~= users_model(v@));
    r
}

/// Copies every option of `v`, in order.
pub fn copy_options(v: &Vec<OptionRecord>) -> (r: Vec<OptionRecord>)
    ensures
        options_model(r@) == options_model(v@),
{
    let mut r: Vec<OptionRecord> = Vec::new();
    let mut i: usize = 0;
    while i < v.len()
        invariant
            i <= v@.len(),
            r@.len() == i,
            forall|j: int| 0 <= j < i ==> r@[j]@ == v@[j]@,
        decreases v@.len() - i,
    {
        r.push(v[i].copy_record());
        i = i + 1;
    }
    assert(options_model(r@) =~= options_model(v@));
    r
}

} // verus!
