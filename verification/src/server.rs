//! The rules behind the HTTP endpoints: how a guess is scored against the
//! answer, what a signup must satisfy, and what a login is answered.

use vstd::prelude::*;

use vstd::std_specs::convert::FromSpec;
use vstd::utf8::encode_utf8;

use crate::backend::{bcrypt_accepts, bcrypt_prefix, hash_password};
use crate::character::Character;
use crate::error::Error;
use crate::wiki::{contains_text, texts};
use crate::Book;

verus! {

/// bcrypt work factor used when hashing a new account's password.
pub const BCRYPT_COST: u32 = 12;

/// Shortest accepted username, in bytes.
pub const MIN_USERNAME_BYTES: usize = 3;

/// Shortest accepted password, in bytes.
pub const MIN_PASSWORD_BYTES: usize = 8;

/// HTTP status of a successful request.
pub const STATUS_OK: u16 = 200;

/// HTTP status of a login with unknown credentials.
pub const STATUS_UNAUTHORIZED: u16 = 401;

/// What a login with unknown credentials is answered.
pub const BAD_CREDENTIALS: &'static str = "incorrect username or password";

/// Prepares the server module; there is nothing to prepare.
pub fn init() -> (r: Result<(), Error>)
    ensures
        r is Ok,
{
    Ok(())
}

/// Whether a guessed field matches the answer's.
#[derive(PartialEq, Eq, Structural, Clone, Copy, Debug)]
pub enum BinaryStatus {
    Correct,
    Incorrect,
}

/// Whether a guessed field matches the answer's, is close to it, or neither.
#[derive(PartialEq, Eq, Structural, Clone, Copy, Debug)]
pub enum TernaryStatus {
    Correct,
    Adjacent,
    Incorrect,
}

/// How the answer's set of abilities relates to the guess's: "the answer is
/// a ... of your guess".
#[derive(PartialEq, Eq, Structural, Clone, Copy, Debug)]
pub enum SetStatus {
    Equal,
    Overlap,
    Subset,
    Superset,
    Disjoint,
}

/// The fields of a guessed character that the board shows.
pub struct CharacterWire {
    pub name: String,
    pub world: String,
    pub introduced: String,
    pub species: String,
    pub nationality: String,
    pub nation: String,
    pub ethnicity: String,
    pub abilities: Vec<String>,
}

impl From<Character> for CharacterWire {
    fn from(value: Character) -> (r: CharacterWire) {
        CharacterWire {
            name: value.name,
            world: value.world,
            introduced: value.introduced,
            species: value.species,
            nationality: value.nationality,
            nation: value.nation,
            ethnicity: value.ethnicity,
            abilities: value.abilities,
        }
    }
}

impl vstd::std_specs::convert::FromSpecImpl<Character> for CharacterWire {
    open spec fn obeys_from_spec() -> bool {
        true
    }

    open spec fn from_spec(value: Character) -> CharacterWire {
        CharacterWire {
            name: value.name,
            world: value.world,
            introduced: value.introduced,
            species: value.species,
            nationality: value.nationality,
            nation: value.nation,
            ethnicity: value.ethnicity,
            abilities: value.abilities,
        }
    }
}

/// The verdict on one guess, field by field, and the guessed character.
pub struct GuessResponse {
    pub name: BinaryStatus,
    pub world: BinaryStatus,
    pub book: TernaryStatus,
    pub species: TernaryStatus,
    pub abilities: SetStatus,
    pub character: CharacterWire,
}

/// Every entry of `a` occurs in `b`.
pub open spec fn text_subset(a: Seq<Seq<char>>, b: Seq<Seq<char>>) -> bool {
    forall|i: int| 0 <= i < a.len() ==> b.contains(#[trigger] a[i])
}

/// Some entry of `a` occurs in `b`.
pub open spec fn text_overlap(a: Seq<Seq<char>>, b: Seq<Seq<char>>) -> bool {
    exists|i: int| 0 <= i < a.len() && b.contains(#[trigger] a[i])
}

/// How the answer's abilities `a` relate to the guess's `g`, both taken as
/// sets.
pub open spec fn set_status(g: Seq<Seq<char>>, a: Seq<Seq<char>>) -> SetStatus {
    if text_subset(g, a) && text_subset(a, g) {
        SetStatus::Equal
    } else if text_subset(g, a) {
        SetStatus::Superset
    } else if text_subset(a, g) {
        SetStatus::Subset
    } else if text_overlap(g, a) {
        SetStatus::Overlap
    } else {
        SetStatus::Disjoint
    }
}

/// `Correct` when the two texts are the same, `Incorrect` otherwise.
pub open spec fn binary_status(g: Seq<char>, a: Seq<char>) -> BinaryStatus {
    if g == a {
        BinaryStatus::Correct
    } else {
        BinaryStatus::Incorrect
    }
}

/// Same species and origin is correct, same species from elsewhere is
/// adjacent, another species is incorrect.
pub open spec fn species_status(g: &Character, a: &Character) -> TernaryStatus {
    if g.species@ == a.species@ {
        if g.nation@ == a.nation@ && g.nationality@ == a.nationality@ && g.ethnicity@
            == a.ethnicity@ {
            TernaryStatus::Correct
        } else {
            TernaryStatus::Adjacent
        }
    } else {
        TernaryStatus::Incorrect
    }
}

/// The series of a looked-up book, if the book is known and has one.
pub open spec fn series_of(b: Option<Book>) -> Option<Seq<char>> {
    match b {
        Some(book) => match book.series {
            Some(s) => Some(s@),
            None => None,
        },
        None => None,
    }
}

/// The same introducing book is correct; books of one series are adjacent;
/// anything else, standalones and unknown books included, is incorrect.
pub open spec fn book_status(
    g_introduced: Seq<char>,
    a_introduced: Seq<char>,
    answer_book: Option<Book>,
    guess_book: Option<Book>,
) -> TernaryStatus {
    if g_introduced == a_introduced {
        TernaryStatus::Correct
    } else {
        match (series_of(answer_book), series_of(guess_book)) {
            (Some(a), Some(g)) => if a == g {
                TernaryStatus::Adjacent
            } else {
                TernaryStatus::Incorrect
            },
            _ => TernaryStatus::Incorrect,
        }
    }
}

/// Whether every ability of `a` is among those of `b`.
fn abilities_within(a: &Vec<String>, b: &Vec<String>) -> (r: bool)
    ensures
        r == text_subset(texts(a@), texts(b@)),
{
    let mut i: usize = 0;
    while i < a.len()
        invariant
            i <= a@.len(),
            forall|j: int| 0 <= j < i ==> texts(b@).contains(#[trigger] texts(a@)[j]),
        decreases a@.len() - i,
    {
        if !contains_text(b, &a[i]) {
            assert(!texts(b@).contains(texts(a@)[i as int]));
            return false;
        }
        i = i + 1;
    }
    true
}

/// Whether some ability of `a` is among those of `b`.
fn abilities_meet(a: &Vec<String>, b: &Vec<String>) -> (r: bool)
    ensures
        r == text_overlap(texts(a@), texts(b@)),
{
    let mut i: usize = 0;
    while i < a.len()
        invariant
            i <= a@.len(),
            forall|j: int| 0 <= j < i ==> !texts(b@).contains(#[trigger] texts(a@)[j]),
        decreases a@.len() - i,
    {
        if contains_text(b, &a[i]) {
            assert(texts(b@).contains(texts(a@)[i as int]));
            return true;
        }
        i = i + 1;
    }
    false
}

/// Compares the guess's abilities `g` with the answer's `a` as sets.
pub fn compare_abilities(g: &Vec<String>, a: &Vec<String>) -> (r: SetStatus)
    ensures
        r == set_status(texts(g@), texts(a@)),
{
    let ga = abilities_within(g, a);
    let ag = abilities_within(a, g);
    if ga && ag {
        SetStatus::Equal
    } else if ga {
        SetStatus::Superset
    } else if ag {
        SetStatus::Subset
    } else if abilities_meet(g, a) {
        SetStatus::Overlap
    } else {
        SetStatus::Disjoint
    }
}

/// Whether scoring the book needs the two books looked up: only when the
/// guess was introduced in another book than the answer.
pub fn needs_books(guess: &Character, answer: &Character) -> (r: bool)
    ensures
        r == (guess.introduced@ != answer.introduced@),
{
    guess.introduced != answer.introduced
}

/// Whether two optional series are both present and equal.
fn same_series(a: &Option<Book>, g: &Option<Book>) -> (r: bool)
    ensures
        r == (series_of(*a) is Some && series_of(*a) == series_of(*g)),
{
    match (a, g) {
        (Some(ab), Some(gb)) => match (&ab.series, &gb.series) {
            (Some(x), Some(y)) => *x == *y,
            _ => false,
        },
        _ => false,
    }
}

/// Scores `guess` against `answer`. `answer_book` and `guess_book` are the
/// books that introduced each of them, as far as they are known; they only
/// matter when those books differ.
pub fn score_guess(
    guess: Character,
    answer: &Character,
    answer_book: Option<Book>,
    guess_book: Option<Book>,
) -> (r: GuessResponse)
    ensures
        r.name == binary_status(guess.name@, answer.name@),
        r.world == binary_status(guess.world@, answer.world@),
        r.book == book_status(guess.introduced@, answer.introduced@, answer_book, guess_book),
        r.species == species_status(&guess, answer),
        r.abilities == set_status(texts(guess.abilities@), texts(answer.abilities@)),
        r.character == CharacterWire::from_spec(guess),
        r.name == BinaryStatus::Correct <==> guess.name@ == answer.name@,
        r.world == BinaryStatus::Correct <==> guess.world@ == answer.world@,
        r.book == TernaryStatus::Correct <==> guess.introduced@ == answer.introduced@,
        r.species == TernaryStatus::Correct <==> guess.species@ == answer.species@
            && guess.nation@ == answer.nation@ && guess.nationality@ == answer.nationality@
            && guess.ethnicity@ == answer.ethnicity@,
        r.species == TernaryStatus::Incorrect <==> guess.species@ != answer.species@,
{
    let name = if guess.name == answer.name {
        BinaryStatus::Correct
    } else {
        BinaryStatus::Incorrect
    };
    let world = if guess.world == answer.world {
        BinaryStatus::Correct
    } else {
        BinaryStatus::Incorrect
    };
    let book = if guess.introduced == answer.introduced {
        TernaryStatus::Correct
    } else if same_series(&answer_book, &guess_book) {
        TernaryStatus::Adjacent
    } else {
        TernaryStatus::Incorrect
    };
    let species = if guess.species == answer.species {
        if guess.nation == answer.nation && guess.nationality == answer.nationality
            && guess.ethnicity == answer.ethnicity {
            TernaryStatus::Correct
        } else {
            TernaryStatus::Adjacent
        }
    } else {
        TernaryStatus::Incorrect
    };
    let abilities = compare_abilities(&guess.abilities, &answer.abilities);
    let character = CharacterWire::from(guess);
    GuessResponse { name, world, book, species, abilities, character }
}

/// The error for a guess that names no known character.
pub fn unknown_character(name: &str) -> (r: Error)
    ensures
        r matches Error::User(m) && m@ == "Unknown character "@ + name@,
{
    Error::User(String::from_str("Unknown character ").concat(name))
}

/// Credentials as a client submits them.
pub struct Auth {
    pub username: String,
    pub password: String,
}

/// Checks a signup's credentials before anything is hashed or stored: the
/// username must have at least three bytes and the password at least eight;
/// the username is checked first.
pub fn validate_signup(auth: &Auth) -> (r: Result<(), Error>)
    ensures
        encode_utf8(auth.username@).len() < MIN_USERNAME_BYTES ==> (r matches Err(Error::User(
            m,
        )) && m@ == "Username too short"@),
        encode_utf8(auth.username@).len() >= MIN_USERNAME_BYTES && encode_utf8(
            auth.password@,
        ).len() < MIN_PASSWORD_BYTES ==> (r matches Err(Error::User(m)) && m@
            == "Password too short"@),
        encode_utf8(auth.username@).len() >= MIN_USERNAME_BYTES && encode_utf8(
            auth.password@,
        ).len() >= MIN_PASSWORD_BYTES ==> r is Ok,
{
    if auth.username.as_str().as_bytes().len() < MIN_USERNAME_BYTES {
        return Err(Error::User(String::from_str("Username too short")));
    }
    if auth.password.as_str().as_bytes().len() < MIN_PASSWORD_BYTES {
        return Err(Error::User(String::from_str("Password too short")));
    }
    Ok(())
}

/// What a signup stores: the username and a bcrypt hash of the password
/// with work factor `cost`. The credentials are checked first, with the
/// errors of `validate_signup`; the hash is one that the same password logs
/// in with, written with work factor `cost`. Hashing draws a random salt, so which hash comes back is left
/// open, and it may fail with a `Bcrypt` error, which a cost outside 4..=31
/// always does.
pub fn signup_record(auth: &Auth, cost: u32) -> (r: Result<(String, String), Error>)
    ensures
        encode_utf8(auth.username@).len() < MIN_USERNAME_BYTES ==> (r matches Err(Error::User(
            m,
        )) && m@ == "Username too short"@),
        encode_utf8(auth.username@).len() >= MIN_USERNAME_BYTES && encode_utf8(
            auth.password@,
        ).len() < MIN_PASSWORD_BYTES ==> (r matches Err(Error::User(m)) && m@
            == "Password too short"@),
        encode_utf8(auth.username@).len() >= MIN_USERNAME_BYTES && encode_utf8(
            auth.password@,
        ).len() >= MIN_PASSWORD_BYTES ==> (match r {
            Ok((u, h)) => u@ == auth.username@ && bcrypt_accepts(auth.password@, h@) && h@.len()
                == 60 && h@.subrange(0, 7) == bcrypt_prefix(cost),
            Err(e) => e is Bcrypt,
        }),
        encode_utf8(auth.username@).len() >= MIN_USERNAME_BYTES && encode_utf8(
            auth.password@,
        ).len() >= MIN_PASSWORD_BYTES && !(4 <= cost <= 31) ==> r is Err,
{
    validate_signup(auth)?;
    let h = hash_password(auth.password.as_str(), cost)?;
    Ok((auth.username.clone(), h))
}

/// How a login attempt went.
pub enum LoginStep {
    /// Looking the credentials up failed.
    LookupFailed,
    /// No user has these credentials.
    NoMatch,
    /// The credentials matched, but the session could not be started.
    SessionFailed,
    /// The user with this name is logged in.
    LoggedIn(String),
}

/// What a login attempt is answered: the username with 200 on success, 401
/// with one fixed sentence when the credentials match no user, whichever way
/// they fail, and a bare 500 when looking them up or starting the session
/// failed.
pub fn login_reply(step: LoginStep) -> (r: (u16, String))
    ensures
        match step {
            LoginStep::LookupFailed => r.0 == STATUS_INTERNAL_ERROR && r.1@.len() == 0,
            LoginStep::NoMatch => r.0 == STATUS_UNAUTHORIZED && r.1@ == BAD_CREDENTIALS@,
            LoginStep::SessionFailed => r.0 == STATUS_INTERNAL_ERROR && r.1@.len() == 0,
            LoginStep::LoggedIn(name) => r.0 == STATUS_OK && r.1@ == name@,
        },
{
    match step {
        LoginStep::LookupFailed => (STATUS_INTERNAL_ERROR, String::new()),
        LoginStep::NoMatch => (STATUS_UNAUTHORIZED, String::from_str(BAD_CREDENTIALS)),
        LoginStep::SessionFailed => (STATUS_INTERNAL_ERROR, String::new()),
        LoginStep::LoggedIn(name) => (STATUS_OK, name),
    }
}

/// HTTP status of a failed login or logout.
pub const STATUS_INTERNAL_ERROR: u16 = 500;

} // verus!

verus! {

/// Guessing the answer itself scores every field correct and the abilities
/// equal, whatever the books are.
pub proof fn lemma_guessing_the_answer_is_all_correct(
    c: Character,
    answer_book: Option<Book>,
    guess_book: Option<Book>,
)
    ensures
        binary_status(c.name@, c.name@) == BinaryStatus::Correct,
        binary_status(c.world@, c.world@) == BinaryStatus::Correct,
        book_status(c.introduced@, c.introduced@, answer_book, guess_book)
            == TernaryStatus::Correct,
        species_status(&c, &c) == TernaryStatus::Correct,
        set_status(texts(c.abilities@), texts(c.abilities@)) == SetStatus::Equal,
{
    let a = texts(c.abilities@);
    assert forall|i: int| 0 <= i < a.len() implies a.contains(#[trigger] a[i]) by {}
}

/// The ability verdict seen from the other side: `Subset` one way is
/// `Superset` the other, and `Equal`, `Overlap` and `Disjoint` are the same
/// both ways.
pub proof fn lemma_set_status_swaps(g: Seq<Seq<char>>, a: Seq<Seq<char>>)
    ensures
        set_status(g, a) == SetStatus::Subset <==> set_status(a, g) == SetStatus::Superset,
        set_status(g, a) == SetStatus::Equal <==> set_status(a, g) == SetStatus::Equal,
        set_status(g, a) == SetStatus::Overlap <==> set_status(a, g) == SetStatus::Overlap,
        set_status(g, a) == SetStatus::Disjoint <==> set_status(a, g) == SetStatus::Disjoint,
{
    if text_overlap(g, a) {
        let i = choose|i: int| 0 <= i < g.len() && a.contains(#[trigger] g[i]);
        let j = choose|j: int| 0 <= j < a.len() && a[j] == g[i];
        assert(g.contains(a[j]));
    }
    if text_overlap(a, g) {
        let i = choose|i: int| 0 <= i < a.len() && g.contains(#[trigger] a[i]);
        let j = choose|j: int| 0 <= j < g.len() && g[j] == a[i];
        assert(a.contains(g[j]));
    }
}

/// The book verdict does not depend on which side is the guess.
pub proof fn lemma_book_status_symmetric(
    g: Seq<char>,
    a: Seq<char>,
    answer_book: Option<Book>,
    guess_book: Option<Book>,
)
    ensures
        book_status(g, a, answer_book, guess_book) == book_status(a, g, guess_book, answer_book),
{
}

/// An unknown book, or a book without a series, on either side is never
/// adjacent to another book.
pub proof fn lemma_standalones_are_not_adjacent(
    g: Seq<char>,
    a: Seq<char>,
    answer_book: Option<Book>,
    guess_book: Option<Book>,
)
    requires
        series_of(answer_book) is None || series_of(guess_book) is None,
    ensures
        book_status(g, a, answer_book, guess_book) != TernaryStatus::Adjacent,
{
}

/// The name and world verdicts: a field is correct exactly when the guess's
/// text is the answer's text, and incorrect otherwise.
pub proof fn lemma_field_verdict(g: Seq<char>, a: Seq<char>)
    ensures
        binary_status(g, a) == BinaryStatus::Correct <==> g == a,
        binary_status(g, a) == BinaryStatus::Incorrect <==> g != a,
{
}

/// How the species of a guess is judged. It is right when species, nation,
/// nationality and ethnicity all agree; it is close when the species agrees
/// but the nation, the nationality or the ethnicity does not; it is wrong
/// when the species does not agree.
pub proof fn lemma_species_verdict(g: &Character, a: &Character)
    ensures
        species_status(g, a) == TernaryStatus::Correct <==> g.species@ == a.species@
            && g.nation@ == a.nation@ && g.nationality@ == a.nationality@ && g.ethnicity@
            == a.ethnicity@,
        species_status(g, a) == TernaryStatus::Adjacent <==> g.species@ == a.species@ && (
        g.nation@ != a.nation@ || g.nationality@ != a.nationality@ || g.ethnicity@
            != a.ethnicity@),
        species_status(g, a) == TernaryStatus::Incorrect <==> g.species@ != a.species@,
{
}

/// The book verdict is correct exactly when both were introduced in the same
/// book, and adjacent only when the two books are known and share a series.
pub proof fn lemma_book_verdict(
    g: Seq<char>,
    a: Seq<char>,
    answer_book: Option<Book>,
    guess_book: Option<Book>,
)
    ensures
        book_status(g, a, answer_book, guess_book) == TernaryStatus::Correct <==> g == a,
        book_status(g, a, answer_book, guess_book) == TernaryStatus::Adjacent <==> g != a
            && series_of(answer_book) is Some && series_of(answer_book) == series_of(guess_book),
{
}

/// `text_subset` is inclusion of the entries taken as sets.
proof fn lemma_text_subset_contains(g: Seq<Seq<char>>, a: Seq<Seq<char>>)
    ensures
        text_subset(g, a) <==> forall|x: Seq<char>| g.contains(x) ==> a.contains(x),
{
    if text_subset(g, a) {
        assert forall|x: Seq<char>| g.contains(x) implies a.contains(x) by {
            let i = choose|i: int| 0 <= i < g.len() && g[i] == x;
            assert(a.contains(g[i]));
        }
    }
    if forall|x: Seq<char>| g.contains(x) ==> a.contains(x) {
        assert forall|i: int| 0 <= i < g.len() implies a.contains(#[trigger] g[i]) by {
            assert(g.contains(g[i]));
        }
    }
}

/// `text_overlap` is a shared entry.
proof fn lemma_text_overlap_contains(g: Seq<Seq<char>>, a: Seq<Seq<char>>)
    ensures
        text_overlap(g, a) <==> exists|x: Seq<char>| g.contains(x) && a.contains(x),
{
    if text_overlap(g, a) {
        let i = choose|i: int| 0 <= i < g.len() && a.contains(#[trigger] g[i]);
        assert(g.contains(g[i]) && a.contains(g[i]));
    }
    if exists|x: Seq<char>| g.contains(x) && a.contains(x) {
        let x = choose|x: Seq<char>| g.contains(x) && a.contains(x);
        let i = choose|i: int| 0 <= i < g.len() && g[i] == x;
        assert(a.contains(g[i]));
    }
}

/// The abilities verdict, with the guess's abilities `g` and the answer's
/// `a` taken as sets: `Equal` exactly when they hold the same abilities;
/// `Superset` exactly when the answer holds every ability of the guess and
/// more; `Subset` exactly when the guess holds every ability of the answer
/// and more; `Overlap` exactly when they share an ability and neither holds
/// the other; `Disjoint` exactly when neither holds the other and they share
/// nothing.
pub proof fn lemma_ability_verdict(g: Seq<Seq<char>>, a: Seq<Seq<char>>)
    ensures
        set_status(g, a) == SetStatus::Equal <==> forall|x: Seq<char>|
            g.contains(x) <==> a.contains(x),
        set_status(g, a) == SetStatus::Superset <==> (forall|x: Seq<char>|
            g.contains(x) ==> a.contains(x)) && exists|x: Seq<char>|
            a.contains(x) && !g.contains(x),
        set_status(g, a) == SetStatus::Subset <==> (forall|x: Seq<char>|
            a.contains(x) ==> g.contains(x)) && exists|x: Seq<char>|
            g.contains(x) && !a.contains(x),
        set_status(g, a) == SetStatus::Overlap <==> (exists|x: Seq<char>|
            g.contains(x) && a.contains(x)) && (exists|x: Seq<char>|
            g.contains(x) && !a.contains(x)) && exists|x: Seq<char>|
            a.contains(x) && !g.contains(x),
        set_status(g, a) == SetStatus::Disjoint <==> (forall|x: Seq<char>|
            !(g.contains(x) && a.contains(x))) && (exists|x: Seq<char>| g.contains(x)) && exists|
            x: Seq<char>,
        | a.contains(x),
{
    lemma_text_subset_contains(g, a);
    lemma_text_subset_contains(a, g);
    lemma_text_overlap_contains(g, a);
}

} // verus!
