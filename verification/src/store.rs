//! The storage model: what the front-end assumes of the two tables.
//!
//! Every operation the user interface performs against the server — the
//! exact-match authentication query, select-all in id order, and
//! insert/update/delete by id — is modelled here over in-memory rows, with
//! its semantics stated and proved. Identifiers are generated the way an
//! identity column generates them: strictly increasing from 1, so rows are
//! unique by id and kept in id order.

use vstd::prelude::*;
use crate::decimal::Decimal;
use crate::models::{DbConfig, Product, User};

verus! {

/// Exact-match test the authentication query applies to one row.
pub open spec fn credentials_match(u: User, username: Seq<char>, password: Seq<char>) -> bool {
    u.username@ == username && u.password@ == password
}

/// No row before position `k` passes the exact-match test.
pub open spec fn no_match_before(
    rows: Seq<User>,
    k: int,
    username: Seq<char>,
    password: Seq<char>,
) -> bool {
    forall|j: int| 0 <= j < k ==> !credentials_match(#[trigger] rows[j], username, password)
}

/// What an insert into the Users table does: appends one row carrying the
/// generated id and the given fields, leaving earlier rows alone.
pub open spec fn created_user(
    pre: Seq<User>,
    post: Seq<User>,
    id: i32,
    username: Seq<char>,
    password: Seq<char>,
) -> bool {
    &&& post.len() == pre.len() + 1
    &&& post.subrange(0, pre.len() as int) == pre
    &&& post.last().id == id
    &&& post.last().username@ == username
    &&& post.last().password@ == password
}

/// What an insert into the Products table does.
pub open spec fn created_product(
    pre: Seq<Product>,
    post: Seq<Product>,
    id: i32,
    name: Seq<char>,
    price: Decimal,
) -> bool {
    &&& post.len() == pre.len() + 1
    &&& post.subrange(0, pre.len() as int) == pre
    &&& post.last().id == id
    &&& post.last().name@ == name
    &&& post.last().price == price
}

/// What an update-by-id of the Users table does: rows with another id keep
/// their prior value; a row with the targeted id takes the given fields.
pub open spec fn updated_user(
    pre: Seq<User>,
    post: Seq<User>,
    id: i32,
    username: Seq<char>,
    password: Seq<char>,
) -> bool {
    &&& post.len() == pre.len()
    &&& (forall|i: int| 0 <= i < pre.len() && (#[trigger] pre[i]).id != id ==> post[i] == pre[i])
    &&& (forall|i: int|
        0 <= i < pre.len() && (#[trigger] pre[i]).id == id ==> post[i].id == id
            && post[i].username@ == username && post[i].password@ == password)
}

/// What an update-by-id of the Products table does.
pub open spec fn updated_product(
    pre: Seq<Product>,
    post: Seq<Product>,
    id: i32,
    name: Seq<char>,
    price: Decimal,
) -> bool {
    &&& post.len() == pre.len()
    &&& (forall|i: int| 0 <= i < pre.len() && (#[trigger] pre[i]).id != id ==> post[i] == pre[i])
    &&& (forall|i: int|
        0 <= i < pre.len() && (#[trigger] pre[i]).id == id ==> post[i].id == id
            && post[i].name@ == name && post[i].price == price)
}

/// What a delete-by-id over Users leaves behind: exactly the rows with
/// another id, in their prior order.
pub open spec fn surviving_users(rows: Seq<User>, id: i32) -> Seq<User> {
    rows.filter(|u: User| u.id != id)
}

/// What a delete-by-id over Products leaves behind.
pub open spec fn surviving_products(rows: Seq<Product>, id: i32) -> Seq<Product> {
    rows.filter(|p: Product| p.id != id)
}

/// The in-memory model of the database the front-end talks to: the two
/// tables plus the id each identity column hands out next.
pub struct Database {
    pub config: DbConfig,
    pub users: Vec<User>,
    pub products: Vec<Product>,
    pub next_user_id: i32,
    pub next_product_id: i32,
}

impl Database {
    /// Rows are in strictly increasing id order (so unique by id), every id
    /// is below the counter, counters start at 1, and prices are
    /// representable.
    pub open spec fn wf(self) -> bool {
        &&& (forall|i: int, j: int|
            0 <= i < j < self.users@.len() ==> self.users@[i].id < self.users@[j].id)
        &&& (forall|i: int|
            0 <= i < self.users@.len() ==> (#[trigger] self.users@[i]).id < self.next_user_id)
        &&& (forall|i: int, j: int|
            0 <= i < j < self.products@.len() ==> self.products@[i].id < self.products@[j].id)
        &&& (forall|i: int|
            0 <= i < self.products@.len() ==> (#[trigger] self.products@[i]).id
                < self.next_product_id)
        &&& (forall|i: int|
            0 <= i < self.products@.len() ==> (#[trigger] self.products@[i]).price.wf())
        &&& 1 <= self.next_user_id
        &&& 1 <= self.next_product_id
    }

    pub fn new(config: DbConfig) -> (db: Database)
        ensures
            db.wf(),
            db.config == config,
            db.users@ == Seq::<User>::empty(),
            db.products@ == Seq::<Product>::empty(),
            db.next_user_id == 1,
            db.next_product_id == 1,
    {
        Database {
            config,
            users: Vec::new(),
            products: Vec::new(),
            next_user_id: 1,
            next_product_id: 1,
        }
    }

    /// The authentication query: returns the first row whose username and
    /// password both equal the submitted text, exactly; a mismatch is "no
    /// row", never an error.
    pub fn authenticate_user(&self, username: &str, password: &str) -> (r: Option<User>)
        ensures
            match r {
                Some(u) => exists|i: int|
                    0 <= i < self.users@.len() && u == #[trigger] self.users@[i]
                        && credentials_match(self.users@[i], username@, password@)
                        && no_match_before(self.users@, i, username@, password@),
                None => no_match_before(
                    self.users@,
                    self.users@.len() as int,
                    username@,
                    password@,
                ),
            },
    {
        let mut i: usize = 0;
        while i < self.users.len()
            invariant
                0 <= i <= self.users@.len(),
                no_match_before(self.users@, i as int, username@, password@),
            decreases self.users@.len() - i,
        {
            let row = &self.users[i];
            if str_eq(row.username.as_str(), username) && str_eq(row.password.as_str(), password) {
                return Some(row.clone());
            }
            i = i + 1;
        }
        None
    }

    /// Select-all over Users, in id order (the order the rows are kept in).
    pub fn get_all_users(&self) -> (r: Vec<User>)
        ensures
            r@ == self.users@,
    {
        let mut out: Vec<User> = Vec::new();
        let mut i: usize = 0;
        while i < self.users.len()
            invariant
                0 <= i <= self.users@.len(),
                out@ == self.users@.subrange(0, i as int),
            decreases self.users@.len() - i,
        {
            out.push(self.users[i].clone());
            proof {
                assert(out@ =~= self.users@.subrange(0, i + 1));
            }
            i = i + 1;
        }
        proof {
            assert(self.users@.subrange(0, self.users@.len() as int) =~= self.users@);
        }
        out
    }

    /// Insert into Users: stores the submitted fields under the next
    /// generated id. Needs headroom on the identity counter.
    pub fn create_user(&mut self, username: &str, password: &str)
        requires
            old(self).wf(),
            old(self).next_user_id < i32::MAX,
        ensures
            final(self).wf(),
            created_user(
                old(self).users@,
                final(self).users@,
                old(self).next_user_id,
                username@,
                password@,
            ),
            final(self).next_user_id == old(self).next_user_id + 1,
            final(self).products@ == old(self).products@,
            final(self).next_product_id == old(self).next_product_id,
            final(self).config == old(self).config,
    {
        let row = User::new(self.next_user_id, username.to_owned(), password.to_owned());
        self.users.push(row);
        self.next_user_id = self.next_user_id + 1;
        proof {
            assert(self.users@.subrange(0, old(self).users@.len() as int) =~= old(self).users@);
            assert forall|a: int, b: int| 0 <= a < b < self.users@.len() implies self.users@[a].id
                < self.users@[b].id by {
                if b < self.users@.len() - 1 {
                    assert(old(self).users@[a].id < old(self).users@[b].id);
                } else {
                    assert(old(self).users@[a].id < old(self).next_user_id);
                }
            }
        }
    }

    /// Update-by-id over Users: the targeted row takes the submitted
    /// fields; every other row keeps its prior value. An absent id changes
    /// nothing.
    pub fn update_user(&mut self, id: i32, username: &str, password: &str)
        requires
            old(self).wf(),
        ensures
            final(self).wf(),
            updated_user(old(self).users@, final(self).users@, id, username@, password@),
            final(self).next_user_id == old(self).next_user_id,
            final(self).products@ == old(self).products@,
            final(self).next_product_id == old(self).next_product_id,
            final(self).config == old(self).config,
    {
        let mut out: Vec<User> = Vec::new();
        let mut i: usize = 0;
        while i < self.users.len()
            invariant
                0 <= i <= self.users@.len(),
                out@.len() == i,
                forall|j: int| 0 <= j < i ==> (#[trigger] out@[j]).id == self.users@[j].id,
                forall|j: int|
                    0 <= j < i && (#[trigger] self.users@[j]).id != id ==> out@[j]
                        == self.users@[j],
                forall|j: int|
                    0 <= j < i && (#[trigger] self.users@[j]).id == id ==> out@[j].username@
                        == username@ && out@[j].password@ == password@,
            decreases self.users@.len() - i,
        {
            let row = &self.users[i];
            if row.id == id {
                out.push(User::new(id, username.to_owned(), password.to_owned()));
            } else {
                out.push(row.clone());
            }
            i = i + 1;
        }
        self.users = out;
        proof {
            assert forall|a: int, b: int| 0 <= a < b < self.users@.len() implies self.users@[a].id
                < self.users@[b].id by {
                assert(old(self).users@[a].id < old(self).users@[b].id);
            }
            assert forall|k: int| 0 <= k < self.users@.len() implies (#[trigger] self.users@[k]).id
                < self.next_user_id by {
                assert(old(self).users@[k].id < old(self).next_user_id);
            }
        }
    }

    /// Delete-by-id over Users: keeps exactly the rows with another id. An
    /// absent id deletes nothing and is no error.
    pub fn delete_user(&mut self, id: i32)
        requires
            old(self).wf(),
        ensures
            final(self).wf(),
            final(self).users@ == surviving_users(old(self).users@, id),
            final(self).next_user_id == old(self).next_user_id,
            final(self).products@ == old(self).products@,
            final(self).next_product_id == old(self).next_product_id,
            final(self).config == old(self).config,
    {
        let mut out: Vec<User> = Vec::new();
        let mut i: usize = 0;
        while i < self.users.len()
            invariant
                0 <= i <= self.users@.len(),
                out@ == surviving_users(self.users@.subrange(0, i as int), id),
            decreases self.users@.len() - i,
        {
            let ghost prefix = self.users@.subrange(0, i as int);
            let ghost next_prefix = self.users@.subrange(0, i + 1);
            proof {
                reveal(Seq::filter);
                assert(next_prefix.drop_last() =~= prefix);
                assert(next_prefix.last() == self.users@[i as int]);
            }
            let row = &self.users[i];
            if row.id != id {
                out.push(row.clone());
            }
            i = i + 1;
        }
        proof {
            assert(self.users@.subrange(0, self.users@.len() as int) =~= self.users@);
            lemma_user_survivors_ordered(self.users@, id);
            lemma_user_survivors_members(self.users@, id);
            let survivors = surviving_users(self.users@, id);
            assert forall|k: int| 0 <= k < survivors.len() implies (#[trigger] survivors[k]).id
                < self.next_user_id by {
                let j = choose|j: int|
                    0 <= j < self.users@.len() && survivors[k] == self.users@[j];
                assert(self.users@[j].id < self.next_user_id);
            }
        }
        self.users = out;
    }

    /// Select-all over Products, in id order.
    pub fn get_all_products(&self) -> (r: Vec<Product>)
        ensures
            r@ == self.products@,
    {
        let mut out: Vec<Product> = Vec::new();
        let mut i: usize = 0;
        while i < self.products.len()
            invariant
                0 <= i <= self.products@.len(),
                out@ == self.products@.subrange(0, i as int),
            decreases self.products@.len() - i,
        {
            out.push(self.products[i].clone());
            proof {
                assert(out@ =~= self.products@.subrange(0, i + 1));
            }
            i = i + 1;
        }
        proof {
            assert(self.products@.subrange(0, self.products@.len() as int) =~= self.products@);
        }
        out
    }

    /// Insert into Products: stores the submitted name and exact price
    /// under the next generated id. Needs headroom on the identity counter.
    pub fn create_product(&mut self, name: &str, price: Decimal)
        requires
            old(self).wf(),
            old(self).next_product_id < i32::MAX,
            price.wf(),
        ensures
            final(self).wf(),
            created_product(
                old(self).products@,
                final(self).products@,
                old(self).next_product_id,
                name@,
                price,
            ),
            final(self).next_product_id == old(self).next_product_id + 1,
            final(self).users@ == old(self).users@,
            final(self).next_user_id == old(self).next_user_id,
            final(self).config == old(self).config,
    {
        let row = Product::new(self.next_product_id, name.to_owned(), price);
        self.products.push(row);
        self.next_product_id = self.next_product_id + 1;
        proof {
            assert(self.products@.subrange(0, old(self).products@.len() as int) =~= old(
                self,
            ).products@);
            assert forall|a: int, b: int|
                0 <= a < b < self.products@.len() implies self.products@[a].id
                < self.products@[b].id by {
                if b < self.products@.len() - 1 {
                    assert(old(self).products@[a].id < old(self).products@[b].id);
                } else {
                    assert(old(self).products@[a].id < old(self).next_product_id);
                }
            }
        }
    }

    /// Update-by-id over Products: the targeted row takes the submitted
    /// name and price; every other row keeps its prior value. An absent id
    /// changes nothing.
    pub fn update_product(&mut self, id: i32, name: &str, price: Decimal)
        requires
            old(self).wf(),
            price.wf(),
        ensures
            final(self).wf(),
            updated_product(old(self).products@, final(self).products@, id, name@, price),
            final(self).next_product_id == old(self).next_product_id,
            final(self).users@ == old(self).users@,
            final(self).next_user_id == old(self).next_user_id,
            final(self).config == old(self).config,
    {
        let mut out: Vec<Product> = Vec::new();
        let mut i: usize = 0;
        while i < self.products.len()
            invariant
                0 <= i <= self.products@.len(),
                out@.len() == i,
                price.wf(),
                forall|j: int| 0 <= j < i ==> (#[trigger] out@[j]).id == self.products@[j].id,
                forall|j: int|
                    0 <= j < i && (#[trigger] self.products@[j]).id != id ==> out@[j]
                        == self.products@[j],
                forall|j: int|
                    0 <= j < i && (#[trigger] self.products@[j]).id == id ==> out@[j].name@
                        == name@ && out@[j].price == price,
                forall|j: int|
                    0 <= j < i && (#[trigger] self.products@[j]).price.wf()
                        ==> out@[j].price.wf(),
            decreases self.products@.len() - i,
        {
            let row = &self.products[i];
            if row.id == id {
                out.push(Product::new(id, name.to_owned(), price));
            } else {
                out.push(row.clone());
            }
            i = i + 1;
        }
        self.products = out;
        proof {
            assert forall|a: int, b: int|
                0 <= a < b < self.products@.len() implies self.products@[a].id
                < self.products@[b].id by {
                assert(old(self).products@[a].id < old(self).products@[b].id);
            }
            assert forall|k: int|
                0 <= k < self.products@.len() implies (#[trigger] self.products@[k]).id
                < self.next_product_id && self.products@[k].price.wf() by {
                assert(old(self).products@[k].id < old(self).next_product_id);
                assert(old(self).products@[k].price.wf());
            }
        }
    }

    /// Delete-by-id over Products: keeps exactly the rows with another id.
    /// An absent id deletes nothing and is no error.
    pub fn delete_product(&mut self, id: i32)
        requires
            old(self).wf(),
        ensures
            final(self).wf(),
            final(self).products@ == surviving_products(old(self).products@, id),
            final(self).next_product_id == old(self).next_product_id,
            final(self).users@ == old(self).users@,
            final(self).next_user_id == old(self).next_user_id,
            final(self).config == old(self).config,
    {
        let mut out: Vec<Product> = Vec::new();
        let mut i: usize = 0;
        while i < self.products.len()
            invariant
                0 <= i <= self.products@.len(),
                out@ == surviving_products(self.products@.subrange(0, i as int), id),
            decreases self.products@.len() - i,
        {
            let ghost prefix = self.products@.subrange(0, i as int);
            let ghost next_prefix = self.products@.subrange(0, i + 1);
            proof {
                reveal(Seq::filter);
                assert(next_prefix.drop_last() =~= prefix);
                assert(next_prefix.last() == self.products@[i as int]);
            }
            let row = &self.products[i];
            if row.id != id {
                out.push(row.clone());
            }
            i = i + 1;
        }
        proof {
            assert(self.products@.subrange(0, self.products@.len() as int) =~= self.products@);
            lemma_product_survivors_ordered(self.products@, id);
            lemma_product_survivors_members(self.products@, id);
            let survivors = surviving_products(self.products@, id);
            assert forall|k: int| 0 <= k < survivors.len() implies (#[trigger] survivors[k]).id
                < self.next_product_id && survivors[k].price.wf() by {
                let j = choose|j: int|
                    0 <= j < self.products@.len() && survivors[k] == self.products@[j];
                assert(self.products@[j].id < self.next_product_id);
                assert(self.products@[j].price.wf());
            }
        }
        self.products = out;
    }
}

/// Every row that survives a delete is one of the prior rows.
pub proof fn lemma_user_survivors_members(rows: Seq<User>, id: i32)
    ensures
        forall|k: int|
            0 <= k < surviving_users(rows, id).len() ==> (exists|j: int|
                0 <= j < rows.len() && #[trigger] surviving_users(rows, id)[k] == rows[j]),
    decreases rows.len(),
{
    reveal(Seq::filter);
    if rows.len() > 0 {
        let f = surviving_users(rows, id);
        let sub = rows.drop_last();
        let fsub = surviving_users(sub, id);
        lemma_user_survivors_members(sub, id);
        assert forall|k: int| 0 <= k < f.len() implies (exists|j: int|
            0 <= j < rows.len() && #[trigger] f[k] == rows[j]) by {
            if rows.last().id != id && k == f.len() - 1 {
                assert(f[k] == rows[rows.len() - 1]);
            } else {
                assert(f[k] == fsub[k]);
                let j = choose|j: int| 0 <= j < sub.len() && fsub[k] == sub[j];
                assert(f[k] == rows[j]);
            }
        }
    }
}

/// Deleting by id keeps the survivors in strictly increasing id order.
pub proof fn lemma_user_survivors_ordered(rows: Seq<User>, id: i32)
    requires
        forall|i: int, j: int| 0 <= i < j < rows.len() ==> rows[i].id < rows[j].id,
    ensures
        forall|a: int, b: int|
            0 <= a < b < surviving_users(rows, id).len() ==> surviving_users(rows, id)[a].id
                < surviving_users(rows, id)[b].id,
    decreases rows.len(),
{
    reveal(Seq::filter);
    if rows.len() > 0 {
        let f = surviving_users(rows, id);
        let sub = rows.drop_last();
        let fsub = surviving_users(sub, id);
        lemma_user_survivors_ordered(sub, id);
        lemma_user_survivors_members(sub, id);
        assert forall|a: int, b: int| 0 <= a < b < f.len() implies f[a].id < f[b].id by {
            if rows.last().id != id && b == f.len() - 1 {
                assert(f[a] == fsub[a]);
                let j = choose|j: int| 0 <= j < sub.len() && fsub[a] == sub[j];
                assert(rows[j].id < rows.last().id);
            } else {
                assert(f[a] == fsub[a] && f[b] == fsub[b]);
            }
        }
    }
}

/// Every row that survives a delete is one of the prior rows.
pub proof fn lemma_product_survivors_members(rows: Seq<Product>, id: i32)
    ensures
        forall|k: int|
            0 <= k < surviving_products(rows, id).len() ==> (exists|j: int|
                0 <= j < rows.len() && #[trigger] surviving_products(rows, id)[k] == rows[j]),
    decreases rows.len(),
{
    reveal(Seq::filter);
    if rows.len() > 0 {
        let f = surviving_products(rows, id);
        let sub = rows.drop_last();
        let fsub = surviving_products(sub, id);
        lemma_product_survivors_members(sub, id);
        assert forall|k: int| 0 <= k < f.len() implies (exists|j: int|
            0 <= j < rows.len() && #[trigger] f[k] == rows[j]) by {
            if rows.last().id != id && k == f.len() - 1 {
                assert(f[k] == rows[rows.len() - 1]);
            } else {
                assert(f[k] == fsub[k]);
                let j = choose|j: int| 0 <= j < sub.len() && fsub[k] == sub[j];
                assert(f[k] == rows[j]);
            }
        }
    }
}

/// Deleting by id keeps the survivors in strictly increasing id order.
pub proof fn lemma_product_survivors_ordered(rows: Seq<Product>, id: i32)
    requires
        forall|i: int, j: int| 0 <= i < j < rows.len() ==> rows[i].id < rows[j].id,
    ensures
        forall|a: int, b: int|
            0 <= a < b < surviving_products(rows, id).len() ==> surviving_products(rows, id)[a].id
                < surviving_products(rows, id)[b].id,
    decreases rows.len(),
{
    reveal(Seq::filter);
    if rows.len() > 0 {
        let f = surviving_products(rows, id);
        let sub = rows.drop_last();
        let fsub = surviving_products(sub, id);
        lemma_product_survivors_ordered(sub, id);
        lemma_product_survivors_members(sub, id);
        assert forall|a: int, b: int| 0 <= a < b < f.len() implies f[a].id < f[b].id by {
            if rows.last().id != id && b == f.len() - 1 {
                assert(f[a] == fsub[a]);
                let j = choose|j: int| 0 <= j < sub.len() && fsub[a] == sub[j];
                assert(rows[j].id < rows.last().id);
            } else {
                assert(f[a] == fsub[a] && f[b] == fsub[b]);
            }
        }
    }
}

/// Deleting an identifier that no product row carries leaves the rows
/// exactly as they were (and raises no error: the operation is total).
pub proof fn lemma_delete_absent_product_id(rows: Seq<Product>, id: i32)
    requires
        forall|i: int| 0 <= i < rows.len() ==> (#[trigger] rows[i]).id != id,
    ensures
        surviving_products(rows, id) == rows,
    decreases rows.len(),
{
    reveal(Seq::filter);
    if rows.len() > 0 {
        lemma_delete_absent_product_id(rows.drop_last(), id);
        assert(rows[rows.len() - 1].id != id);
        assert(surviving_products(rows, id) =~= rows);
    } else {
        assert(surviving_products(rows, id) =~= rows);
    }
}

/// Deleting an identifier that no user row carries leaves the rows exactly
/// as they were.
pub proof fn lemma_delete_absent_user_id(rows: Seq<User>, id: i32)
    requires
        forall|i: int| 0 <= i < rows.len() ==> (#[trigger] rows[i]).id != id,
    ensures
        surviving_users(rows, id) == rows,
    decreases rows.len(),
{
    reveal(Seq::filter);
    if rows.len() > 0 {
        lemma_delete_absent_user_id(rows.drop_last(), id);
        assert(rows[rows.len() - 1].id != id);
        assert(surviving_users(rows, id) =~= rows);
    } else {
        assert(surviving_users(rows, id) =~= rows);
    }
}

/// A row just created is listed: it stands at the end of the reloaded
/// list, carrying the submitted name and the exact submitted price.
pub proof fn lemma_create_then_list_product(
    pre: Seq<Product>,
    post: Seq<Product>,
    id: i32,
    name: Seq<char>,
    price: Decimal,
)
    requires
        created_product(pre, post, id, name, price),
    ensures
        post.len() == pre.len() + 1,
        post[post.len() - 1].name@ == name,
        post[post.len() - 1].price == price,
        exists|i: int|
            0 <= i < post.len() && (#[trigger] post[i]).name@ == name && post[i].price == price,
{
    assert(post[post.len() - 1].name@ == name);
}

/// Comparison the authentication query applies: character-for-character
/// equality of the submitted text with the stored column.
fn str_eq(a: &str, b: &str) -> (r: bool)
    ensures
        r <==> a@ == b@,
{
    let a_owned: String = a.to_owned();
    let b_owned: String = b.to_owned();
    a_owned == b_owned
}

} // verus!
