//! The character record that the game compares, and the mapping from infobox
//! keys to its fields.

use vstd::prelude::*;

use crate::text::same_text;

verus! {

/// The text-valued fields of a `Character` that an infobox key can set.
#[derive(PartialEq, Eq, Structural, Clone, Copy, Debug)]
pub enum Field {
    Parents,
    Spouse,
    Siblings,
    Children,
    Ancestors,
    Relatives,
    Descendants,
    Born,
    Died,
    Bonded,
    Titles,
    Aliases,
    Skills,
    Achievements,
    Powers,
    HashProfession,
    Profession,
    Occupation,
    Religion,
    Groups,
    Species,
    TickSpecies,
    Era,
    Birthplace,
    TickBirthplace,
    Residence,
    TickResidence,
    Ethnicity,
    TickEthnicity,
    Nation,
    TickNation,
    Nationality,
    World,
    TickWorld,
    Universe,
    Introduced,
}

/// What an infobox key sets: a text field, or one of the two `y` flags.
#[derive(PartialEq, Eq, Structural, Clone, Copy, Debug)]
pub enum Key {
    Text(Field),
    Unnamed,
    HideWorld,
}

/// The field an infobox key sets; `None` for keys that `Character::add`
/// ignores (`abilities` and `name` among them).
pub open spec fn key_field(k: Seq<char>) -> Option<Key> {
    if k == "unnamed"@ {
        Some(Key::Unnamed)
    } else if k == "hide_world"@ {
        Some(Key::HideWorld)
    } else if k == "parents"@ {
        Some(Key::Text(Field::Parents))
    } else if k == "spouse"@ {
        Some(Key::Text(Field::Spouse))
    } else if k == "siblings"@ {
        Some(Key::Text(Field::Siblings))
    } else if k == "children"@ {
        Some(Key::Text(Field::Children))
    } else if k == "ancestors"@ {
        Some(Key::Text(Field::Ancestors))
    } else if k == "relatives"@ {
        Some(Key::Text(Field::Relatives))
    } else if k == "descendants"@ {
        Some(Key::Text(Field::Descendants))
    } else if k == "born"@ {
        Some(Key::Text(Field::Born))
    } else if k == "died"@ {
        Some(Key::Text(Field::Died))
    } else if k == "bonded"@ {
        Some(Key::Text(Field::Bonded))
    } else if k == "titles"@ {
        Some(Key::Text(Field::Titles))
    } else if k == "aliases"@ {
        Some(Key::Text(Field::Aliases))
    } else if k == "skills"@ {
        Some(Key::Text(Field::Skills))
    } else if k == "achievements"@ {
        Some(Key::Text(Field::Achievements))
    } else if k == "powers"@ {
        Some(Key::Text(Field::Powers))
    } else if k == "#profession"@ {
        Some(Key::Text(Field::HashProfession))
    } else if k == "profession"@ {
        Some(Key::Text(Field::Profession))
    } else if k == "occupation"@ {
        Some(Key::Text(Field::Occupation))
    } else if k == "religion"@ {
        Some(Key::Text(Field::Religion))
    } else if k == "groups"@ {
        Some(Key::Text(Field::Groups))
    } else if k == "species"@ {
        Some(Key::Text(Field::Species))
    } else if k == "'species"@ {
        Some(Key::Text(Field::TickSpecies))
    } else if k == "era"@ {
        Some(Key::Text(Field::Era))
    } else if k == "birthplace"@ {
        Some(Key::Text(Field::Birthplace))
    } else if k == "'birthplace"@ {
        Some(Key::Text(Field::TickBirthplace))
    } else if k == "residence"@ {
        Some(Key::Text(Field::Residence))
    } else if k == "'residence"@ {
        Some(Key::Text(Field::TickResidence))
    } else if k == "ethnicity"@ {
        Some(Key::Text(Field::Ethnicity))
    } else if k == "'ethnicity"@ {
        Some(Key::Text(Field::TickEthnicity))
    } else if k == "nation"@ {
        Some(Key::Text(Field::Nation))
    } else if k == "'nation"@ {
        Some(Key::Text(Field::TickNation))
    } else if k == "nationality"@ {
        Some(Key::Text(Field::Nationality))
    } else if k == "world"@ || k == "earth"@ {
        Some(Key::Text(Field::World))
    } else if k == "'world"@ {
        Some(Key::Text(Field::TickWorld))
    } else if k == "universe"@ {
        Some(Key::Text(Field::Universe))
    } else if k == "introduced"@ {
        Some(Key::Text(Field::Introduced))
    } else {
        None
    }
}

/// A character as the wiki describes it.
pub struct Character {
    pub name: String,
    pub unnamed: bool,
    pub parents: String,
    pub spouse: String,
    pub siblings: String,
    pub children: String,
    pub ancestors: String,
    pub relatives: String,
    pub descendants: String,
    pub born: String,
    pub died: String,
    pub abilities: Vec<String>,
    pub bonded: String,
    pub titles: String,
    pub aliases: String,
    pub skills: String,
    pub achievements: String,
    pub powers: String,
    pub hash_profession: String,
    pub profession: String,
    pub occupation: String,
    pub religion: String,
    pub groups: String,
    pub species: String,
    pub tick_species: String,
    pub era: String,
    pub birthplace: String,
    pub tick_birthplace: String,
    pub residence: String,
    pub tick_residence: String,
    pub ethnicity: String,
    pub tick_ethnicity: String,
    pub nation: String,
    pub tick_nation: String,
    pub nationality: String,
    pub world: String,
    pub tick_world: String,
    pub hide_world: bool,
    pub universe: String,
    pub introduced: String,
}

/// The abstract value of a `Character`.
pub struct CharacterView {
    pub name: Seq<char>,
    pub unnamed: bool,
    pub hide_world: bool,
    pub abilities: Seq<Seq<char>>,
    pub text: Map<Field, Seq<char>>,
}

impl CharacterView {
    /// The character with no field set.
    pub open spec fn blank() -> CharacterView {
        CharacterView {
            name: Seq::empty(),
            unnamed: false,
            hide_world: false,
            abilities: Seq::empty(),
            text: Map::new(|f: Field| true, |f: Field| Seq::<char>::empty()),
        }
    }

    /// This character with text field `f` set to `v`.
    pub open spec fn with_text(self, f: Field, v: Seq<char>) -> CharacterView {
        CharacterView { text: self.text.insert(f, v), ..self }
    }

    /// This character with its ability list replaced.
    pub open spec fn with_abilities(self, a: Seq<Seq<char>>) -> CharacterView {
        CharacterView { abilities: a, ..self }
    }

    /// This character with its name replaced.
    pub open spec fn with_name(self, n: Seq<char>) -> CharacterView {
        CharacterView { name: n, ..self }
    }

    /// The effect of `Character::add(k, v)`.
    pub open spec fn assign(self, k: Seq<char>, v: Seq<char>) -> CharacterView {
        match key_field(k) {
            Some(Key::Text(f)) => self.with_text(f, v),
            Some(Key::Unnamed) => CharacterView { unnamed: v == "y"@, ..self },
            Some(Key::HideWorld) => CharacterView { hide_world: v == "y"@, ..self },
            None => self,
        }
    }
}

impl Character {
    /// The text held in field `f`.
    pub open spec fn text_of(&self, f: Field) -> Seq<char> {
        match f {
            Field::Parents => self.parents@,
            Field::Spouse => self.spouse@,
            Field::Siblings => self.siblings@,
            Field::Children => self.children@,
            Field::Ancestors => self.ancestors@,
            Field::Relatives => self.relatives@,
            Field::Descendants => self.descendants@,
            Field::Born => self.born@,
            Field::Died => self.died@,
            Field::Bonded => self.bonded@,
            Field::Titles => self.titles@,
            Field::Aliases => self.aliases@,
            Field::Skills => self.skills@,
            Field::Achievements => self.achievements@,
            Field::Powers => self.powers@,
            Field::HashProfession => self.hash_profession@,
            Field::Profession => self.profession@,
            Field::Occupation => self.occupation@,
            Field::Religion => self.religion@,
            Field::Groups => self.groups@,
            Field::Species => self.species@,
            Field::TickSpecies => self.tick_species@,
            Field::Era => self.era@,
            Field::Birthplace => self.birthplace@,
            Field::TickBirthplace => self.tick_birthplace@,
            Field::Residence => self.residence@,
            Field::TickResidence => self.tick_residence@,
            Field::Ethnicity => self.ethnicity@,
            Field::TickEthnicity => self.tick_ethnicity@,
            Field::Nation => self.nation@,
            Field::TickNation => self.tick_nation@,
            Field::Nationality => self.nationality@,
            Field::World => self.world@,
            Field::TickWorld => self.tick_world@,
            Field::Universe => self.universe@,
            Field::Introduced => self.introduced@,
        }
    }
}

impl View for Character {
    type V = CharacterView;

    open spec fn view(&self) -> CharacterView {
        CharacterView {
            name: self.name@,
            unnamed: self.unnamed,
            hide_world: self.hide_world,
            abilities: self.abilities@.map_values(|a: String| a@),
            text: Map::new(|f: Field| true, |f: Field| self.text_of(f)),
        }
    }
}

/// Which field, if any, key `k` sets.
pub fn key_of(k: &str) -> (r: Option<Key>)
    ensures
        r == key_field(k@),
{
    if same_text(k, "unnamed") {
        Some(Key::Unnamed)
    } else if same_text(k, "hide_world") {
        Some(Key::HideWorld)
    } else if same_text(k, "parents") {
        Some(Key::Text(Field::Parents))
    } else if same_text(k, "spouse") {
        Some(Key::Text(Field::Spouse))
    } else if same_text(k, "siblings") {
        Some(Key::Text(Field::Siblings))
    } else if same_text(k, "children") {
        Some(Key::Text(Field::Children))
    } else if same_text(k, "ancestors") {
        Some(Key::Text(Field::Ancestors))
    } else if same_text(k, "relatives") {
        Some(Key::Text(Field::Relatives))
    } else if same_text(k, "descendants") {
        Some(Key::Text(Field::Descendants))
    } else if same_text(k, "born") {
        Some(Key::Text(Field::Born))
    } else if same_text(k, "died") {
        Some(Key::Text(Field::Died))
    } else if same_text(k, "bonded") {
        Some(Key::Text(Field::Bonded))
    } else if same_text(k, "titles") {
        Some(Key::Text(Field::Titles))
    } else if same_text(k, "aliases") {
        Some(Key::Text(Field::Aliases))
    } else if same_text(k, "skills") {
        Some(Key::Text(Field::Skills))
    } else if same_text(k, "achievements") {
        Some(Key::Text(Field::Achievements))
    } else if same_text(k, "powers") {
        Some(Key::Text(Field::Powers))
    } else if same_text(k, "#profession") {
        Some(Key::Text(Field::HashProfession))
    } else if same_text(k, "profession") {
        Some(Key::Text(Field::Profession))
    } else if same_text(k, "occupation") {
        Some(Key::Text(Field::Occupation))
    } else if same_text(k, "religion") {
        Some(Key::Text(Field::Religion))
    } else if same_text(k, "groups") {
        Some(Key::Text(Field::Groups))
    } else if same_text(k, "species") {
        Some(Key::Text(Field::Species))
    } else if same_text(k, "'species") {
        Some(Key::Text(Field::TickSpecies))
    } else if same_text(k, "era") {
        Some(Key::Text(Field::Era))
    } else if same_text(k, "birthplace") {
        Some(Key::Text(Field::Birthplace))
    } else if same_text(k, "'birthplace") {
        Some(Key::Text(Field::TickBirthplace))
    } else if same_text(k, "residence") {
        Some(Key::Text(Field::Residence))
    } else if same_text(k, "'residence") {
        Some(Key::Text(Field::TickResidence))
    } else if same_text(k, "ethnicity") {
        Some(Key::Text(Field::Ethnicity))
    } else if same_text(k, "'ethnicity") {
        Some(Key::Text(Field::TickEthnicity))
    } else if same_text(k, "nation") {
        Some(Key::Text(Field::Nation))
    } else if same_text(k, "'nation") {
        Some(Key::Text(Field::TickNation))
    } else if same_text(k, "nationality") {
        Some(Key::Text(Field::Nationality))
    } else if same_text(k, "world") || same_text(k, "earth") {
        Some(Key::Text(Field::World))
    } else if same_text(k, "'world") {
        Some(Key::Text(Field::TickWorld))
    } else if same_text(k, "universe") {
        Some(Key::Text(Field::Universe))
    } else if same_text(k, "introduced") {
        Some(Key::Text(Field::Introduced))
    } else {
        None
    }
}

impl Character {
    /// The character with every field empty or false.
    pub fn blank() -> (r: Character)
        ensures
            r@ == CharacterView::blank(),
    {
        let r = Character {
            name: String::new(),
            unnamed: false,
            parents: String::new(),
            spouse: String::new(),
            siblings: String::new(),
            children: String::new(),
            ancestors: String::new(),
            relatives: String::new(),
            descendants: String::new(),
            born: String::new(),
            died: String::new(),
            abilities: Vec::new(),
            bonded: String::new(),
            titles: String::new(),
            aliases: String::new(),
            skills: String::new(),
            achievements: String::new(),
            powers: String::new(),
            hash_profession: String::new(),
            profession: String::new(),
            occupation: String::new(),
            religion: String::new(),
            groups: String::new(),
            species: String::new(),
            tick_species: String::new(),
            era: String::new(),
            birthplace: String::new(),
            tick_birthplace: String::new(),
            residence: String::new(),
            tick_residence: String::new(),
            ethnicity: String::new(),
            tick_ethnicity: String::new(),
            nation: String::new(),
            tick_nation: String::new(),
            nationality: String::new(),
            world: String::new(),
            tick_world: String::new(),
            hide_world: false,
            universe: String::new(),
            introduced: String::new(),
        };
        assert(r@.abilities =~= Seq::<Seq<char>>::empty());
        assert(r@.text =~= CharacterView::blank().text);
        r
    }

    /// Stores `v` in text field `f`.
    fn set_text(&mut self, f: Field, v: String)
        ensures
            final(self)@ == old(self)@.with_text(f, v@),
    {
        match f {
            Field::Parents => self.parents = v,
            Field::Spouse => self.spouse = v,
            Field::Siblings => self.siblings = v,
            Field::Children => self.children = v,
            Field::Ancestors => self.ancestors = v,
            Field::Relatives => self.relatives = v,
            Field::Descendants => self.descendants = v,
            Field::Born => self.born = v,
            Field::Died => self.died = v,
            Field::Bonded => self.bonded = v,
            Field::Titles => self.titles = v,
            Field::Aliases => self.aliases = v,
            Field::Skills => self.skills = v,
            Field::Achievements => self.achievements = v,
            Field::Powers => self.powers = v,
            Field::HashProfession => self.hash_profession = v,
            Field::Profession => self.profession = v,
            Field::Occupation => self.occupation = v,
            Field::Religion => self.religion = v,
            Field::Groups => self.groups = v,
            Field::Species => self.species = v,
            Field::TickSpecies => self.tick_species = v,
            Field::Era => self.era = v,
            Field::Birthplace => self.birthplace = v,
            Field::TickBirthplace => self.tick_birthplace = v,
            Field::Residence => self.residence = v,
            Field::TickResidence => self.tick_residence = v,
            Field::Ethnicity => self.ethnicity = v,
            Field::TickEthnicity => self.tick_ethnicity = v,
            Field::Nation => self.nation = v,
            Field::TickNation => self.tick_nation = v,
            Field::Nationality => self.nationality = v,
            Field::World => self.world = v,
            Field::TickWorld => self.tick_world = v,
            Field::Universe => self.universe = v,
            Field::Introduced => self.introduced = v,
        }
        assert(self@.text =~= old(self)@.text.insert(f, v@));
        assert(self@.abilities =~= old(self)@.abilities);
    }

    /// Sets the field that infobox key `k` names to `v`; `unnamed` and
    /// `hide_world` become true exactly when `v` is `y`. Unknown keys are
    /// ignored.
    pub fn add(&mut self, k: &str, v: String)
        ensures
            final(self)@ == old(self)@.assign(k@, v@),
    {
        match key_of(k) {
            Some(Key::Text(f)) => self.set_text(f, v),
            Some(Key::Unnamed) => {
                self.unnamed = same_text(v.as_str(), "y");
                assert(self@.text =~= old(self)@.text);
                assert(self@.abilities =~= old(self)@.abilities);
            },
            Some(Key::HideWorld) => {
                self.hide_world = same_text(v.as_str(), "y");
                assert(self@.text =~= old(self)@.text);
                assert(self@.abilities =~= old(self)@.abilities);
            },
            None => {
                assert(self@.text =~= old(self)@.text);
                assert(self@.abilities =~= old(self)@.abilities);
            },
        }
    }

    /// Replaces the ability list with `v`.
    pub fn abilities(&mut self, v: Vec<String>)
        ensures
            final(self)@ == old(self)@.with_abilities(v@.map_values(|a: String| a@)),
    {
        self.abilities = v;
        assert(self@.text =~= old(self)@.text);
    }

    /// Sets the character's name.
    pub fn name(&mut self, v: String)
        ensures
            final(self)@ == old(self)@.with_name(v@),
    {
        self.name = v;
        assert(self@.text =~= old(self)@.text);
        assert(self@.abilities =~= old(self)@.abilities);
    }
}

impl Default for Character {
    fn default() -> (r: Character)
        ensures
            r@ == CharacterView::blank(),
    {
        Character::blank()
    }
}

} // verus!

verus! {

/// Setting the same key twice keeps only the second value.
pub proof fn lemma_add_overwrites(c: CharacterView, k: Seq<char>, v1: Seq<char>, v2: Seq<char>)
    ensures
        c.assign(k, v1).assign(k, v2) == c.assign(k, v2),
{
    match key_field(k) {
        Some(Key::Text(f)) => {
            assert(c.text.insert(f, v1).insert(f, v2) =~= c.text.insert(f, v2));
        },
        _ => {},
    }
}

/// A key that names no field leaves the character as it was.
pub proof fn lemma_unknown_key_ignored(c: CharacterView, k: Seq<char>, v: Seq<char>)
    requires
        key_field(k) is None,
    ensures
        c.assign(k, v) == c,
{
}

} // verus!

verus! {

/// The only universe whose characters are playable.
pub const COSMERE: &'static str = "Cosmere";

/// Whether a character is playable when it is stored: exactly when it
/// belongs to the Cosmere.
pub fn is_playable(c: &Character) -> (r: bool)
    ensures
        r == (c.universe@ == COSMERE@),
{
    same_text(c.universe.as_str(), COSMERE)
}

} // verus!
