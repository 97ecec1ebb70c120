use subtle::ConstantTimeEq;
use vstd::prelude::*;
use vstd::utf8::*;

use crate::email_index::{email_lookup_hash, lookup_token, normalized};
use crate::encryption::{decrypted, encrypt_with_random_nonce, MAX_PLAINTEXT_LEN};
use crate::errors::custom_errors::CustomError;
use crate::hashing::{hash_random_salt, password_verifies, verify_password, MAX_PASSWORD_LEN};
use crate::jwt::unix_now;
use crate::keys::{derived_key, Config};
use crate::text::str_eq;

verus! {

broadcast use {encode_utf8_decode_utf8};

/// Relies on `<[u8] as subtle::ConstantTimeEq>::ct_eq`: true exactly when the
/// lengths and all bytes agree, without an early exit on a mismatch.
#[verifier::external_body]
fn ct_eq_bytes(a: &[u8], b: &[u8]) -> (r: bool)
    ensures
        r == (a@ == b@),
{
    bool::from(a.ct_eq(b))
}

/// Relies on `uuid::Uuid::new_v4().to_string()`: a fresh random identifier.
#[verifier::external_body]
fn new_user_id() -> (r: String) {
    uuid::Uuid::new_v4().to_string()
}

/// One stored account. Personal fields are stored encrypted under the key
/// derived for `id`; the email is found through `email_hash` alone.
pub struct UserRecord {
    pub id: String,
    pub encrypted_firstname: String,
    pub encrypted_lastname: String,
    pub username: String,
    pub password_hash: String,
    pub encrypted_email: String,
    pub email_hash: String,
    pub created_at: u64,
}

/// Two records agree in every field.
pub open spec fn same_record(a: UserRecord, b: UserRecord) -> bool {
    &&& a.id@ == b.id@
    &&& a.encrypted_firstname@ == b.encrypted_firstname@
    &&& a.encrypted_lastname@ == b.encrypted_lastname@
    &&& a.username@ == b.username@
    &&& a.password_hash@ == b.password_hash@
    &&& a.encrypted_email@ == b.encrypted_email@
    &&& a.email_hash@ == b.email_hash@
    &&& a.created_at == b.created_at
}

impl UserRecord {
    /// A copy of this record.
    pub fn duplicate(&self) -> (r: UserRecord)
        ensures
            same_record(r, *self),
    {
        UserRecord {
            id: self.id.clone(),
            encrypted_firstname: self.encrypted_firstname.clone(),
            encrypted_lastname: self.encrypted_lastname.clone(),
            username: self.username.clone(),
            password_hash: self.password_hash.clone(),
            encrypted_email: self.encrypted_email.clone(),
            email_hash: self.email_hash.clone(),
            created_at: self.created_at,
        }
    }
}

/// No two records share an email lookup hash.
pub open spec fn unique_lookup(users: Seq<UserRecord>) -> bool {
    forall|i: int, j: int|
        0 <= i < users.len() && 0 <= j < users.len() && i != j ==> users[i].email_hash@
            != users[j].email_hash@
}

/// No two records share an identifier.
pub open spec fn unique_ids(users: Seq<UserRecord>) -> bool {
    forall|i: int, j: int|
        0 <= i < users.len() && 0 <= j < users.len() && i != j ==> users[i].id@ != users[j].id@
}

/// `u` is, field for field, the stored record of `email`.
pub open spec fn found(users: Seq<UserRecord>, salt: Seq<char>, email: Seq<char>, u: UserRecord) -> bool {
    exists|i: int|
        0 <= i < users.len() && same_record(u, users[i]) && users[i].email_hash@ == lookup_token(
            salt,
            email,
        )
}

/// Two spellings of an address that normalise alike find the same record.
pub proof fn lemma_equivalent_spellings_same_record(
    users: Seq<UserRecord>,
    salt: Seq<char>,
    e1: Seq<char>,
    e2: Seq<char>,
    u1: UserRecord,
    u2: UserRecord,
)
    requires
        unique_lookup(users),
        normalized(e1) == normalized(e2),
        found(users, salt, e1, u1),
        found(users, salt, e2, u2),
    ensures
        same_record(u1, u2),
{
    let i = choose|i: int|
        0 <= i < users.len() && same_record(u1, users[i]) && users[i].email_hash@ == lookup_token(
            salt,
            e1,
        );
    let j = choose|j: int|
        0 <= j < users.len() && same_record(u2, users[j]) && users[j].email_hash@ == lookup_token(
            salt,
            e2,
        );
    assert(i == j);
}

/// Record `i` is the account of `email` and `password` opens it.
pub open spec fn login_match(
    users: Seq<UserRecord>,
    salt: Seq<char>,
    email: Seq<char>,
    password: Seq<char>,
    i: int,
) -> bool {
    0 <= i < users.len() && users[i].email_hash@ == lookup_token(salt, email) && password_verifies(
        password,
        users[i].password_hash@,
    )
}

/// Whether some record carries the lookup hash `token`.
pub open spec fn holds_token(users: Seq<UserRecord>, token: Seq<char>) -> bool {
    exists|i: int| 0 <= i < users.len() && users[i].email_hash@ == token
}

/// What a successful registration stores: the lookup hash of the email, a
/// hash the password verifies against, and the three personal fields
/// encrypted under the key of the new identifier.
pub open spec fn registered_as(
    rec: UserRecord,
    config: Config,
    firstname: Seq<char>,
    lastname: Seq<char>,
    username: Seq<char>,
    password: Seq<char>,
    email: Seq<char>,
) -> bool {
    let key = derived_key(config.encryption_secret@, rec.id@);
    &&& rec.email_hash@ == lookup_token(config.email_salt@, email)
    &&& password_verifies(password, rec.password_hash@)
    &&& rec.username@ == username
    &&& decrypted(key, rec.encrypted_firstname@) == Some(firstname)
    &&& decrypted(key, rec.encrypted_lastname@) == Some(lastname)
    &&& decrypted(key, rec.encrypted_email@) == Some(email)
}

/// A registered account is found again by any spelling of its email that
/// normalises alike (for ASCII addresses, any change of letter case; see
/// `lemma_ascii_case_insensitive`), with the registered password, and no
/// other record matches.
pub proof fn lemma_registered_user_authenticates(
    users: Seq<UserRecord>,
    config: Config,
    firstname: Seq<char>,
    lastname: Seq<char>,
    username: Seq<char>,
    password: Seq<char>,
    registered_email: Seq<char>,
    login_email: Seq<char>,
)
    requires
        unique_lookup(users),
        users.len() > 0,
        registered_as(
            users.last(),
            config,
            firstname,
            lastname,
            username,
            password,
            registered_email,
        ),
        normalized(login_email) == normalized(registered_email),
    ensures
        login_match(users, config.email_salt@, login_email, password, users.len() - 1),
        forall|i: int|
            login_match(users, config.email_salt@, login_email, password, i) ==> i == users.len()
                - 1,
{
}

/// The account store: user records in memory, with lookup hashes kept
/// unique.
pub struct Database {
    users: Vec<UserRecord>,
    config: Config,
}

impl Database {
    pub closed spec fn records(&self) -> Seq<UserRecord> {
        self.users@
    }

    pub closed spec fn configuration(&self) -> Config {
        self.config
    }

    /// Well-formedness: configuration present, lookup hashes and
    /// identifiers unique.
    pub open spec fn wf(&self) -> bool {
        self.configuration().wf() && unique_lookup(self.records()) && unique_ids(self.records())
    }

    /// An empty store under `config`.
    pub fn new(config: Config) -> (r: Database)
        requires
            config.wf(),
        ensures
            r.wf(),
            r.records().len() == 0,
            r.configuration() == config,
    {
        Database { users: Vec::new(), config }
    }

    /// A store holding `users`, as saved earlier. Refused with
    /// `DatabaseError` when two of them share a lookup hash or an identifier.
    pub fn from_records(config: Config, users: Vec<UserRecord>) -> (r: Result<
        Database,
        CustomError,
    >)
        requires
            config.wf(),
        ensures
            r is Ok <==> unique_lookup(users@) && unique_ids(users@),
            r matches Ok(db) ==> db.wf() && db.records() == users@ && db.configuration() == config,
            r matches Err(e) ==> e == CustomError::DatabaseError,
    {
        let n = users.len();
        let mut i: usize = 0;
        while i < n
            invariant
                n == users@.len(),
                i <= n,
                forall|a: int, b: int|
                    0 <= a < i && 0 <= b < i && a != b ==> users@[a].email_hash@
                        != users@[b].email_hash@ && users@[a].id@ != users@[b].id@,
            decreases n - i,
        {
            let mut j: usize = 0;
            while j < i
                invariant
                    n == users@.len(),
                    j <= i < n,
                    forall|a: int, b: int|
                        0 <= a < i && 0 <= b < i && a != b ==> users@[a].email_hash@
                            != users@[b].email_hash@ && users@[a].id@ != users@[b].id@,
                    forall|b: int|
                        0 <= b < j ==> users@[i as int].email_hash@ != users@[b].email_hash@
                            && users@[i as int].id@ != users@[b].id@,
                decreases i - j,
            {
                if str_eq(users[i].email_hash.as_str(), users[j].email_hash.as_str()) || str_eq(
                    users[i].id.as_str(),
                    users[j].id.as_str(),
                ) {
                    proof {
                        if users@[i as int].email_hash@ == users@[j as int].email_hash@ {
                            assert(!unique_lookup(users@));
                        } else {
                            assert(!unique_ids(users@));
                        }
                    }
                    return Err(CustomError::DatabaseError);
                }
                j = j + 1;
            }
            i = i + 1;
        }
        Ok(Database { users, config })
    }

    /// A copy of every stored record, in order, for saving.
    pub fn snapshot(&self) -> (r: Vec<UserRecord>)
        ensures
            r@.len() == self.records().len(),
            forall|i: int| 0 <= i < r@.len() ==> same_record(r@[i], self.records()[i]),
    {
        let n = self.users.len();
        let mut out: Vec<UserRecord> = Vec::new();
        let mut i: usize = 0;
        while i < n
            invariant
                n == self.users@.len(),
                i <= n,
                out@.len() == i,
                forall|k: int| 0 <= k < i ==> same_record(out@[k], self.users@[k]),
            decreases n - i,
        {
            out.push(self.users[i].duplicate());
            i = i + 1;
        }
        out
    }

    /// Number of stored accounts.
    pub fn len(&self) -> (r: usize)
        ensures
            r == self.records().len(),
    {
        self.users.len()
    }

    /// The index of the record whose lookup hash is `token`.
    fn find_index(&self, token: &str) -> (r: Option<usize>)
        ensures
            r matches Some(i) ==> i < self.records().len() && self.records()[i as int].email_hash@
                == token@,
            r is None ==> !holds_token(self.records(), token@),
    {
        let n = self.users.len();
        let mut i: usize = 0;
        while i < n
            invariant
                n == self.users@.len(),
                i <= n,
                forall|j: int| 0 <= j < i ==> self.users@[j].email_hash@ != token@,
            decreases n - i,
        {
            if ct_eq_bytes(self.users[i].email_hash.as_str().as_bytes(), token.as_bytes()) {
                proof {
                    encode_utf8_decode_utf8(self.users@[i as int].email_hash@);
                    encode_utf8_decode_utf8(token@);
                }
                return Some(i);
            }
            i = i + 1;
        }
        None
    }

    /// Whether some record has the identifier `id`.
    fn id_taken(&self, id: &str) -> (r: bool)
        ensures
            r == exists|i: int| 0 <= i < self.records().len() && self.records()[i].id@ == id@,
    {
        let n = self.users.len();
        let mut i: usize = 0;
        while i < n
            invariant
                n == self.users@.len(),
                i <= n,
                forall|j: int| 0 <= j < i ==> self.users@[j].id@ != id@,
            decreases n - i,
        {
            if str_eq(self.users[i].id.as_str(), id) {
                assert(self.records()[i as int].id@ == id@);
                return true;
            }
            i = i + 1;
        }
        false
    }

    /// A length that no stored identifier exceeds.
    fn longest_id(&self) -> (r: usize)
        ensures
            forall|i: int| 0 <= i < self.records().len() ==> self.records()[i].id@.len() <= r,
    {
        let n = self.users.len();
        let mut best: usize = 0;
        let mut i: usize = 0;
        while i < n
            invariant
                n == self.users@.len(),
                i <= n,
                forall|j: int| 0 <= j < i ==> self.users@[j].id@.len() <= best,
            decreases n - i,
        {
            let len = self.users[i].id.as_str().unicode_len();
            if len > best {
                best = len;
            }
            i = i + 1;
        }
        best
    }

    /// A fresh random identifier that no record uses. Should the draw hit a
    /// stored identifier, it is lengthened until it is longer than all of them.
    fn fresh_id(&self) -> (r: String)
        ensures
            forall|i: int| 0 <= i < self.records().len() ==> self.records()[i].id@ != r@,
    {
        let mut id = new_user_id();
        let bound = self.longest_id();
        proof {
            reveal_strlit("0");
        }
        while self.id_taken(id.as_str())
            invariant
                forall|i: int| 0 <= i < self.records().len() ==> self.records()[i].id@.len() <= bound,
                "0"@.len() == 1,
            decreases bound + 1 - id@.len(),
        {
            id = id.concat("0");
        }
        id
    }

    /// The record of `email`, if one is stored.
    pub fn find_user_by_email_hash(&self, email: &str) -> (r: Option<UserRecord>)
        ensures
            r is Some <==> holds_token(
                self.records(),
                lookup_token(self.configuration().email_salt@, email@),
            ),
            r matches Some(u) ==> found(
                self.records(),
                self.configuration().email_salt@,
                email@,
                u,
            ),
    {
        let token = email_lookup_hash(self.config.email_salt.as_str(), email);
        match self.find_index(token.as_str()) {
            Some(i) => {
                let u = self.users[i].duplicate();
                assert(same_record(u, self.records()[i as int]));
                Some(u)
            },
            None => None,
        }
    }

    /// Registers an account. Refused with `UserAlreadyExists` exactly when
    /// the email's lookup hash is already stored; otherwise one record is
    /// appended, holding what `registered_as` describes.
    pub fn register(
        &mut self,
        firstname: String,
        lastname: String,
        username: String,
        password: String,
        email: String,
    ) -> (r: Result<String, CustomError>)
        requires
            old(self).wf(),
        ensures
            final(self).wf(),
            final(self).configuration() == old(self).configuration(),
            (r matches Err(e) && e == CustomError::UserAlreadyExists) <==> holds_token(
                old(self).records(),
                lookup_token(old(self).configuration().email_salt@, email@),
            ),
            r is Err ==> final(self).records() == old(self).records(),
            r matches Ok(id) ==> final(self).records().len() == old(self).records().len() + 1
                && final(self).records().take(old(self).records().len() as int) == old(
                self,
            ).records() && final(self).records().last().id@ == id@ && registered_as(
                final(self).records().last(),
                old(self).configuration(),
                firstname@,
                lastname@,
                username@,
                password@,
                email@,
            ),
            !holds_token(
                old(self).records(),
                lookup_token(old(self).configuration().email_salt@, email@),
            ) && encode_utf8(firstname@).len() < MAX_PLAINTEXT_LEN && encode_utf8(lastname@).len()
                < MAX_PLAINTEXT_LEN && encode_utf8(email@).len() < MAX_PLAINTEXT_LEN
                && encode_utf8(password@).len() <= MAX_PASSWORD_LEN ==> r is Ok,
            r matches Err(e) ==> e == CustomError::UserAlreadyExists || e
                == CustomError::EncryptionError || e == CustomError::HashingError,
    {
        let email_hash = email_lookup_hash(self.config.email_salt.as_str(), email.as_str());
        if self.find_index(email_hash.as_str()).is_some() {
            return Err(CustomError::UserAlreadyExists);
        }
        let id = self.fresh_id();
        let key = self.config.user_key(id.as_str());
        let encrypted_firstname = match encrypt_with_random_nonce(&key, firstname.as_str()) {
            Ok(c) => c,
            Err(_) => return Err(CustomError::EncryptionError),
        };
        let encrypted_lastname = match encrypt_with_random_nonce(&key, lastname.as_str()) {
            Ok(c) => c,
            Err(_) => return Err(CustomError::EncryptionError),
        };
        let encrypted_email = match encrypt_with_random_nonce(&key, email.as_str()) {
            Ok(c) => c,
            Err(_) => return Err(CustomError::EncryptionError),
        };
        let password_hash = match hash_random_salt(password.as_str()) {
            Ok(h) => h,
            Err(_) => return Err(CustomError::HashingError),
        };
        let created_at = unix_now() as u64;
        let record = UserRecord {
            id: id.clone(),
            encrypted_firstname,
            encrypted_lastname,
            username,
            password_hash,
            encrypted_email,
            email_hash,
            created_at,
        };
        let ghost before = self.users@;
        self.users.push(record);
        assert(self.users@.take(before.len() as int) =~= before);
        Ok(id)
    }

    /// Authenticates by email and password. Succeeds, with the account's
    /// identifier, exactly when the stored record of that email verifies the
    /// password; unknown account and wrong password are the same
    /// `InvalidCredentials`.
    pub fn authenticate_user(&self, email: String, password: String) -> (r: Result<
        String,
        CustomError,
    >)
        requires
            self.wf(),
        ensures
            r is Ok <==> exists|i: int|
                login_match(
                    self.records(),
                    self.configuration().email_salt@,
                    email@,
                    password@,
                    i,
                ),
            r matches Ok(id) ==> exists|i: int|
                login_match(
                    self.records(),
                    self.configuration().email_salt@,
                    email@,
                    password@,
                    i,
                ) && self.records()[i].id@ == id@,
            r matches Err(e) ==> e == CustomError::InvalidCredentials,
    {
        let token = email_lookup_hash(self.config.email_salt.as_str(), email.as_str());
        let i = match self.find_index(token.as_str()) {
            Some(i) => i,
            None => return Err(CustomError::InvalidCredentials),
        };
        match verify_password(password.as_str(), self.users[i].password_hash.as_str()) {
            Ok(()) => {
                assert(login_match(
                    self.records(),
                    self.configuration().email_salt@,
                    email@,
                    password@,
                    i as int,
                ));
                Ok(self.users[i].id.clone())
            },
            Err(_) => Err(CustomError::InvalidCredentials),
        }
    }
}

} // verus!
