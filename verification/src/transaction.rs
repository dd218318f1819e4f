//! The write-once idempotency cache keyed by endpoint path and credential.

use vstd::prelude::*;

use crate::error::ApiError;

verus! {

/// A cached prior response, keyed by the endpoint path and the access
/// token that produced it. Rows never change after creation.
#[derive(Debug, PartialEq, Eq)]
pub struct Transaction {
    /// The full path of the endpoint used for the transaction.
    pub path: String,
    /// The access token used.
    pub access_token: String,
    /// The serialized response of the endpoint. It should be used
    /// as the response on future requests.
    pub response: String,
}

impl Clone for Transaction {
    fn clone(&self) -> (r: Self)
        ensures
            r == *self,
    {
        Transaction {
            path: self.path.clone(),
            access_token: self.access_token.clone(),
            response: self.response.clone(),
        }
    }
}

/// The contents of the `transactions` table: the rows in insertion order,
/// with `(path, access_token)` as the primary key.
pub struct TransactionStore {
    /// The stored rows.
    pub transactions: Vec<Transaction>,
}

/// The first row of `s` keyed by `(path, token)`, if any.
pub open spec fn spec_find_transaction(
    s: Seq<Transaction>,
    path: Seq<char>,
    token: Seq<char>,
) -> Option<Transaction>
    decreases s.len(),
{
    if s.len() == 0 {
        None
    } else if s[0].path@ == path && s[0].access_token@ == token {
        Some(s[0])
    } else {
        spec_find_transaction(s.drop_first(), path, token)
    }
}

impl TransactionStore {
    /// The primary-key constraint: no two rows share `(path, access_token)`.
    pub open spec fn wf(&self) -> bool {
        forall|i: int, j: int|
            0 <= i < j < self.transactions@.len() ==> !(
            (#[trigger] self.transactions@[i]).path@ == (#[trigger] self.transactions@[j]).path@
                && self.transactions@[i].access_token@ == self.transactions@[j].access_token@)
    }

    /// An empty table.
    pub fn new() -> (s: TransactionStore)
        ensures
            s.wf(),
            s.transactions@ == Seq::<Transaction>::empty(),
    {
        TransactionStore { transactions: Vec::new() }
    }
}

impl Transaction {
    /// Create a new transaction entry.
    ///
    /// Fails with a conflict when a row for `(path, access_token)` already
    /// exists; the stored rows are then left unchanged. Otherwise the new
    /// row is appended and returned.
    pub fn create(
        store: &mut TransactionStore,
        path: String,
        access_token: String,
        response: String,
    ) -> (r: Result<Transaction, ApiError>)
        requires
            old(store).wf(),
        ensures
            final(store).wf(),
            (match spec_find_transaction(old(store).transactions@, path@, access_token@) {
                Some(_) => r == Err::<Transaction, ApiError>(ApiError::Conflict) && *final(store)
                    == *old(store),
                None => {
                    &&& r matches Ok(t)
                    &&& t.path@ == path@
                    &&& t.access_token@ == access_token@
                    &&& t.response@ == response@
                    &&& final(store).transactions@ == old(store).transactions@.push(t)
                },
            }),
    {
        let existing = Transaction::find(store, path.as_str(), access_token.as_str());
        match existing {
            Ok(Some(_)) => Err(ApiError::Conflict),
            _ => {
                let row = Transaction { path, access_token, response };
                let result = row.clone();
                store.transactions.push(row);
                proof {
                    lemma_find_transaction_some_in(
                        old(store).transactions@,
                        result.path@,
                        result.access_token@,
                    );
                    lemma_push_keeps_unique(old(store).transactions@, store.transactions@.last());
                }
                Ok(result)
            },
        }
    }

    /// Look up a transaction with the url path of the endpoint and the access token.
    ///
    /// Absence is an empty result, never an error.
    pub fn find(store: &TransactionStore, path: &str, access_token: &str) -> (r: Result<
        Option<Transaction>,
        ApiError,
    >)
        ensures
            (match r {
                Ok(found) => found == spec_find_transaction(
                    store.transactions@,
                    path@,
                    access_token@,
                ),
                Err(_) => false,
            }),
    {
        let p = path.to_owned();
        let t = access_token.to_owned();
        let n = store.transactions.len();
        let mut i: usize = 0;
        proof {
            assert(store.transactions@.skip(0) =~= store.transactions@);
        }
        while i < n
            invariant
                n == store.transactions@.len(),
                i <= n,
                p@ == path@,
                t@ == access_token@,
                spec_find_transaction(store.transactions@.skip(i as int), p@, t@)
                    == spec_find_transaction(store.transactions@, p@, t@),
            decreases n - i,
        {
            let row = &store.transactions[i];
            if row.path == p && row.access_token == t {
                proof {
                    assert(store.transactions@.skip(i as int)[0] == store.transactions@[i as int]);
                    assert(spec_find_transaction(store.transactions@.skip(i as int), p@, t@)
                        == Some(store.transactions@[i as int]));
                }
                return Ok(Some(row.clone()));
            }
            proof {
                assert(store.transactions@.skip(i as int).drop_first() =~= store.transactions@.skip(
                    i as int + 1,
                ));
            }
            i = i + 1;
        }
        proof {
            assert(store.transactions@.skip(n as int) =~= Seq::<Transaction>::empty());
        }
        Ok(None)
    }
}

/// A key that some row carries is found: the lookup never overlooks a row.
proof fn lemma_find_transaction_some_in(s: Seq<Transaction>, path: Seq<char>, token: Seq<char>)
    ensures
        spec_find_transaction(s, path, token) is None ==> forall|i: int|
            0 <= i < s.len() ==> !((#[trigger] s[i]).path@ == path && s[i].access_token@ == token),
    decreases s.len(),
{
    if s.len() > 0 {
        lemma_find_transaction_some_in(s.drop_first(), path, token);
        if spec_find_transaction(s, path, token) is None {
            assert forall|i: int|
                0 <= i < s.len() implies !((#[trigger] s[i]).path@ == path && s[i].access_token@
                == token) by {
                if i > 0 {
                    assert(s.drop_first()[i - 1] == s[i]);
                }
            }
        }
    }
}

/// Appending a row with a key no existing row carries keeps the keys unique.
proof fn lemma_push_keeps_unique(s: Seq<Transaction>, t: Transaction)
    requires
        forall|i: int, j: int|
            0 <= i < j < s.len() ==> !((#[trigger] s[i]).path@ == (#[trigger] s[j]).path@
                && s[i].access_token@ == s[j].access_token@),
        spec_find_transaction(s, t.path@, t.access_token@) is None,
    ensures
        forall|i: int, j: int|
            0 <= i < j < s.push(t).len() ==> !((#[trigger] s.push(t)[i]).path@ == (#[trigger] s.push(
                t,
            )[j]).path@ && s.push(t)[i].access_token@ == s.push(t)[j].access_token@),
{
    lemma_find_transaction_some_in(s, t.path@, t.access_token@);
    assert forall|i: int, j: int| 0 <= i < j < s.push(t).len() implies !((#[trigger] s.push(
        t,
    )[i]).path@ == (#[trigger] s.push(t)[j]).path@ && s.push(t)[i].access_token@ == s.push(
        t,
    )[j].access_token@) by {
        if j < s.len() {
            assert(s.push(t)[i] == s[i]);
            assert(s.push(t)[j] == s[j]);
        } else {
            assert(s.push(t)[j] == t);
            assert(s.push(t)[i] == s[i]);
        }
    }
}

/// Round trip: a freshly created row is exactly what a later lookup with
/// its key yields, whatever was stored before.
pub proof fn lemma_transaction_round_trip(s: Seq<Transaction>, t: Transaction)
    requires
        spec_find_transaction(s, t.path@, t.access_token@) is None,
    ensures
        spec_find_transaction(s.push(t), t.path@, t.access_token@) == Some(t),
    decreases s.len(),
{
    if s.len() == 0 {
        assert(s.push(t)[0] == t);
    } else {
        lemma_transaction_round_trip(s.drop_first(), t);
        assert(s.push(t)[0] == s[0]);
        assert(s.push(t).drop_first() =~= s.drop_first().push(t));
    }
}

} // verus!
