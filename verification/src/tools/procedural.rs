//! Procedurals: a named random choice between possibilities, each with an optional chance,
//! written as Alter Ego `<procedural>` markup, as a list of possible names, or as a list of
//! containing phrases.
use vstd::prelude::*;

use crate::text::{
    chars_of, concat, extend, extend_str, free_of, has_prefix, join, joined, lemma_replaced_absent,
    lemma_replaced_after_free_prefix, replace, replaced, same_chars, string_of,
};
use crate::tools::chance::{in_percent_range, Chance};

verus! {

broadcast use vstd::string::group_string_axioms;

/// A character statistic that a procedural may depend on.
#[derive(Debug, PartialEq, Eq, Structural, Clone, Copy)]
pub enum Stat {
    Strength,
    Perception,
    Dexterity,
    Speed,
    Stamina,
}

/// The stat whose full name is `name`.
pub open spec fn stat_named(name: Seq<char>) -> Option<Stat> {
    if name == "Strength"@ {
        Some(Stat::Strength)
    } else if name == "Perception"@ {
        Some(Stat::Perception)
    } else if name == "Dexterity"@ {
        Some(Stat::Dexterity)
    } else if name == "Speed"@ {
        Some(Stat::Speed)
    } else if name == "Stamina"@ {
        Some(Stat::Stamina)
    } else {
        None
    }
}

impl Stat {
    /// The three-letter form of the stat used in markup.
    pub open spec fn abbreviation(self) -> Seq<char> {
        match self {
            Stat::Strength => "str"@,
            Stat::Perception => "per"@,
            Stat::Dexterity => "dex"@,
            Stat::Speed => "spd"@,
            Stat::Stamina => "sta"@,
        }
    }

    /// The stat whose full name (`Strength`, `Perception`, `Dexterity`, `Speed` or
    /// `Stamina`) is `name`.
    pub fn from_name(name: &str) -> (res: Option<Stat>)
        ensures
            res == stat_named(name@),
    {
        let n = chars_of(name);
        if same_chars(&n, &chars_of("Strength")) {
            Some(Stat::Strength)
        } else if same_chars(&n, &chars_of("Perception")) {
            Some(Stat::Perception)
        } else if same_chars(&n, &chars_of("Dexterity")) {
            Some(Stat::Dexterity)
        } else if same_chars(&n, &chars_of("Speed")) {
            Some(Stat::Speed)
        } else if same_chars(&n, &chars_of("Stamina")) {
            Some(Stat::Stamina)
        } else {
            None
        }
    }

    /// The three-letter form of the stat (see `abbreviation`).
    pub fn to_string(&self) -> (s: String)
        ensures
            s@ == self.abbreviation(),
    {
        match self {
            Stat::Strength => String::from_str("str"),
            Stat::Perception => String::from_str("per"),
            Stat::Dexterity => String::from_str("dex"),
            Stat::Speed => String::from_str("spd"),
            Stat::Stamina => String::from_str("sta"),
        }
    }
}

/// How a possibility's name is written in a list of possible names or phrases.
#[derive(Debug, PartialEq, Eq, Structural, Clone, Copy)]
pub enum PossibleFlag {
    /// The name as it is.
    Unchanged,
    Uppercase,
    Lowercase,
}

/// The flag named `name`: `Uppercase`, `Lowercase`, and `Unchanged` for any other name.
pub open spec fn flag_named(name: Seq<char>) -> PossibleFlag {
    if name == "Uppercase"@ {
        PossibleFlag::Uppercase
    } else if name == "Lowercase"@ {
        PossibleFlag::Lowercase
    } else {
        PossibleFlag::Unchanged
    }
}

impl PossibleFlag {
    /// The flag named `name` (see `flag_named`).
    pub fn from(name: &str) -> (flag: PossibleFlag)
        ensures
            flag == flag_named(name@),
    {
        let n = chars_of(name);
        if same_chars(&n, &chars_of("Uppercase")) {
            PossibleFlag::Uppercase
        } else if same_chars(&n, &chars_of("Lowercase")) {
            PossibleFlag::Lowercase
        } else {
            PossibleFlag::Unchanged
        }
    }
}

/// What `str::to_uppercase` gives for `s` (Unicode full case mapping).
pub uninterp spec fn str_uppercase(s: Seq<char>) -> Seq<char>;

/// What `str::to_lowercase` gives for `s` (Unicode full case mapping).
pub uninterp spec fn str_lowercase(s: Seq<char>) -> Seq<char>;

/// `s` in upper case, from `str::to_uppercase`. Trusted: the result is `str_uppercase(s)`.
#[verifier::external_body]
fn to_uppercase(s: &str) -> (res: String)
    ensures
        res@ == str_uppercase(s@),
{
    s.to_uppercase()
}

/// `s` in lower case, from `str::to_lowercase`. Trusted: the result is `str_lowercase(s)`.
#[verifier::external_body]
fn to_lowercase(s: &str) -> (res: String)
    ensures
        res@ == str_lowercase(s@),
{
    s.to_lowercase()
}

/// A possibility's name as the flag writes it.
pub open spec fn transformed(name: Seq<char>, flag: PossibleFlag) -> Seq<char> {
    match flag {
        PossibleFlag::Unchanged => name,
        PossibleFlag::Uppercase => str_uppercase(name),
        PossibleFlag::Lowercase => str_lowercase(name),
    }
}


/// A text that may be absent.
pub open spec fn text_view(o: Option<String>) -> Option<Seq<char>> {
    match o {
        Some(s) => Some(s@),
        None => None,
    }
}

/// A chance that may be absent, by its text.
pub open spec fn chance_view(o: Option<Chance>) -> Option<Seq<char>> {
    match o {
        Some(c) => Some(c@),
        None => None,
    }
}

/// A possibility: an optional name and an optional chance.
pub type Possibility = (Option<String>, Option<Chance>);

/// A possibility by the texts of its name and chance.
pub open spec fn possibility_view(p: Possibility) -> (Option<Seq<char>>, Option<Seq<char>>) {
    (text_view(p.0), chance_view(p.1))
}

/// The contents of a procedural, or of a builder for one.
#[verifier::ext_equal]
pub struct ProceduralFields {
    pub name: Option<Seq<char>>,
    pub chance: Option<Seq<char>>,
    pub stat: Option<Stat>,
    pub possibilities: Seq<(Option<Seq<char>>, Option<Seq<char>>)>,
}

/// The chance, if there is one, is neither above 100 nor below 0.
pub open spec fn chance_allowed(c: Option<Seq<char>>) -> bool {
    match c {
        Some(t) => in_percent_range(t),
        None => true,
    }
}

impl ProceduralFields {
    /// No name, chance, stat or possibility.
    pub open spec fn empty() -> Self {
        ProceduralFields { name: None, chance: None, stat: None, possibilities: Seq::empty() }
    }

    /// These contents with the name replaced.
    pub open spec fn with_name(self, name: Option<Seq<char>>) -> Self {
        ProceduralFields { name, ..self }
    }

    /// These contents with the chance replaced.
    pub open spec fn with_chance(self, chance: Option<Seq<char>>) -> Self {
        ProceduralFields { chance, ..self }
    }

    /// These contents with the stat replaced.
    pub open spec fn with_stat(self, stat: Option<Stat>) -> Self {
        ProceduralFields { stat, ..self }
    }

    /// These contents with the possibilities replaced.
    pub open spec fn with_possibilities(
        self,
        possibilities: Seq<(Option<Seq<char>>, Option<Seq<char>>)>,
    ) -> Self {
        ProceduralFields { possibilities, ..self }
    }

    /// The possibilities before `i` have allowed chances.
    pub open spec fn possibility_chances_allowed_before(self, i: int) -> bool {
        forall|j: int| 0 <= j < i ==> chance_allowed(#[trigger] self.possibilities[j].1)
    }

    /// Every chance is neither above 100 nor below 0.
    pub open spec fn chances_allowed(self) -> bool {
        &&& chance_allowed(self.chance)
        &&& self.possibility_chances_allowed_before(self.possibilities.len() as int)
    }

    /// The names of the possibilities that have one, in order.
    pub open spec fn named_possibilities(self) -> Seq<Seq<char>> {
        names_of(self.possibilities)
    }
}

/// The names that the possibilities have, in order.
pub open spec fn names_of(ps: Seq<(Option<Seq<char>>, Option<Seq<char>>)>) -> Seq<Seq<char>>
    decreases ps.len(),
{
    if ps.len() == 0 {
        Seq::empty()
    } else {
        match ps.last().0 {
            Some(n) => names_of(ps.drop_last()).push(n),
            None => names_of(ps.drop_last()),
        }
    }
}

/// `name="value"`, or nothing when there is no value.
pub open spec fn attribute(name: Seq<char>, value: Option<Seq<char>>) -> Seq<char> {
    match value {
        Some(v) => name + "=\""@ + v + "\""@,
        None => Seq::empty(),
    }
}

/// The attributes that are not empty, each after a space.
pub open spec fn attribute_list(attributes: Seq<Seq<char>>) -> Seq<char>
    decreases attributes.len(),
{
    if attributes.len() == 0 {
        Seq::empty()
    } else if attributes.last().len() == 0 {
        attribute_list(attributes.drop_last())
    } else {
        attribute_list(attributes.drop_last()) + " "@ + attributes.last()
    }
}

/// An opening tag with the given attributes.
pub open spec fn opening_tag(tag: Seq<char>, attributes: Seq<Seq<char>>) -> Seq<char> {
    "<"@ + tag + attribute_list(attributes) + ">"@
}

/// The stat's abbreviation, if there is a stat.
pub open spec fn stat_text(stat: Option<Stat>) -> Option<Seq<char>> {
    match stat {
        Some(s) => Some(s.abbreviation()),
        None => None,
    }
}

/// The opening `<procedural>` tag with the name, chance and stat that are set.
pub open spec fn procedural_tag(f: ProceduralFields) -> Seq<char> {
    opening_tag(
        "procedural"@,
        seq![
            attribute("name"@, f.name),
            attribute("chance"@, f.chance),
            attribute("stat"@, stat_text(f.stat)),
        ],
    )
}

/// One `<poss>` element: its name and chance as attributes, its name, if not empty, as
/// content.
pub open spec fn possibility_tag(p: (Option<Seq<char>>, Option<Seq<char>>)) -> Seq<char> {
    opening_tag("poss"@, seq![attribute("name"@, p.0), attribute("chance"@, p.1)]) + match p.0 {
        Some(n) => n,
        None => Seq::empty(),
    } + "</poss>"@
}

/// The `<procedural>` markup of a procedural.
pub open spec fn procedural_markup(f: ProceduralFields) -> Seq<char> {
    procedural_tag(f) + concat(
        f.possibilities.map_values(|p: (Option<Seq<char>>, Option<Seq<char>>)| possibility_tag(p)),
    ) + "</procedural>"@
}

/// `[procedural=possibility: NAME]`, the possibility's name written as the flag says.
pub open spec fn name_tag(procedural: Seq<char>, name: Seq<char>, flag: PossibleFlag) -> Seq<
    char,
> {
    "["@ + procedural + "="@ + name + ": "@ + transformed(name, flag) + "]"@
}

/// `[procedural=possibility: phrase]`, the phrase being `pattern` with each `{}` replaced
/// by the possibility's name written as the flag says.
pub open spec fn phrase_tag(
    procedural: Seq<char>,
    name: Seq<char>,
    pattern: Seq<char>,
    flag: PossibleFlag,
) -> Seq<char> {
    "["@ + procedural + "="@ + name + ": "@ + replaced(pattern, "{}"@, transformed(name, flag))
        + "]"@
}

/// The list of possible names: one name tag per named possibility, separated by `", "`.
pub open spec fn possible_names(procedural: Seq<char>, names: Seq<Seq<char>>, flag: PossibleFlag) -> Seq<
    char,
> {
    joined(names.map_values(|n: Seq<char>| name_tag(procedural, n, flag)), ", "@)
}

/// The list of containing phrases: one phrase tag per named possibility, separated by `", "`.
pub open spec fn possible_phrases(
    procedural: Seq<char>,
    names: Seq<Seq<char>>,
    pattern: Seq<char>,
    flag: PossibleFlag,
) -> Seq<char> {
    joined(names.map_values(|n: Seq<char>| phrase_tag(procedural, n, pattern, flag)), ", "@)
}

/// Why a procedural could not be built or written.
#[derive(Debug)]
pub enum ProceduralError {
    /// The procedural's own chance, whose text this is, is above 100 or below 0.
    ChanceOutOfRange(String),
    /// A possibility's chance, whose text this is, is above 100 or below 0.
    PossibilityChanceOutOfRange(String),
    /// The procedural has no name.
    MissingName,
    /// No possibility has a name.
    NoNamedPossibility,
    /// No pattern was given for the containing phrases.
    MissingPattern,
}

impl ProceduralError {
    /// A description of the error for the user.
    pub fn message(&self) -> (m: String)
        ensures
            self matches ProceduralError::ChanceOutOfRange(c) ==> m@ == "Chance "@ + c@
                + " cannot be more than 100 or be less than 0."@,
            self matches ProceduralError::PossibilityChanceOutOfRange(c) ==> m@ == "Possibility "@
                + c@ + " cannot be more than 100 or be less than 0."@,
            self is MissingName ==> m@ == "Procedural must have name."@,
            self is NoNamedPossibility ==> m@ == "At least one possibility must be named."@,
            self is MissingPattern ==> m@ == "A pattern must be provided"@,
    {
        match self {
            ProceduralError::ChanceOutOfRange(c) => {
                let mut m = String::from_str("Chance ");
                m.append(c.as_str());
                m.append(" cannot be more than 100 or be less than 0.");
                m
            },
            ProceduralError::PossibilityChanceOutOfRange(c) => {
                let mut m = String::from_str("Possibility ");
                m.append(c.as_str());
                m.append(" cannot be more than 100 or be less than 0.");
                m
            },
            ProceduralError::MissingName => String::from_str("Procedural must have name."),
            ProceduralError::NoNamedPossibility => String::from_str(
                "At least one possibility must be named.",
            ),
            ProceduralError::MissingPattern => String::from_str("A pattern must be provided"),
        }
    }
}


/// `res` is what building a procedural from `f` gives: the procedural, when every chance is
/// allowed; else the first chance that is not, the procedural's own first.
pub open spec fn built_from(f: ProceduralFields, res: Result<Procedural, ProceduralError>) -> bool {
    match res {
        Ok(p) => f.chances_allowed() && p@ == f,
        Err(ProceduralError::ChanceOutOfRange(c)) => {
            &&& f.chance == Some(c@)
            &&& !in_percent_range(c@)
        },
        Err(ProceduralError::PossibilityChanceOutOfRange(c)) => {
            &&& chance_allowed(f.chance)
            &&& exists|i: int|
                {
                    &&& 0 <= i < f.possibilities.len()
                    &&& f.possibility_chances_allowed_before(i)
                    &&& #[trigger] f.possibilities[i].1 == Some(c@)
                    &&& !in_percent_range(c@)
                }
        },
        Err(_) => false,
    }
}

/// `res` is what listing the possible names of `f` gives.
pub open spec fn names_listed(
    f: ProceduralFields,
    flag: PossibleFlag,
    res: Result<String, ProceduralError>,
) -> bool {
    match res {
        Ok(s) => {
            &&& f.name is Some
            &&& f.named_possibilities().len() > 0
            &&& s@ == possible_names(f.name->0, f.named_possibilities(), flag)
        },
        Err(ProceduralError::MissingName) => f.name is None,
        Err(ProceduralError::NoNamedPossibility) => {
            &&& f.name is Some
            &&& f.named_possibilities().len() == 0
        },
        Err(_) => false,
    }
}

/// `res` is what listing the containing phrases of `f` for `pattern` gives.
pub open spec fn phrases_listed(
    f: ProceduralFields,
    pattern: Seq<char>,
    flag: PossibleFlag,
    res: Result<String, ProceduralError>,
) -> bool {
    match res {
        Ok(s) => {
            &&& f.name is Some
            &&& f.named_possibilities().len() > 0
            &&& s@ == possible_phrases(f.name->0, f.named_possibilities(), pattern, flag)
        },
        Err(ProceduralError::MissingName) => f.name is None,
        Err(ProceduralError::NoNamedPossibility) => {
            &&& f.name is Some
            &&& f.named_possibilities().len() == 0
        },
        Err(_) => false,
    }
}

/// A text, absent when it is empty.
pub open spec fn unless_empty(t: Seq<char>) -> Option<Seq<char>> {
    if t.len() == 0 {
        None
    } else {
        Some(t)
    }
}

/// The contents of a procedural as the form gives them: an empty name means no name, the
/// stat is the one with the chosen full name, and an empty possibility name means no name.
pub open spec fn form_fields(
    name: Seq<char>,
    chance: Option<Seq<char>>,
    stat: Seq<char>,
    possibilities: Seq<(Seq<char>, Option<Seq<char>>)>,
) -> ProceduralFields {
    ProceduralFields {
        name: unless_empty(name),
        chance,
        stat: stat_named(stat),
        possibilities: possibilities.map_values(
            |p: (Seq<char>, Option<Seq<char>>)| (unless_empty(p.0), p.1),
        ),
    }
}

/// A procedural, built by `ProceduralBuilder::build`.
#[derive(Debug, PartialEq)]
pub struct Procedural {
    name: Option<String>,
    chance: Option<Chance>,
    stat: Option<Stat>,
    possibilities: Vec<Possibility>,
}

impl View for Procedural {
    type V = ProceduralFields;

    closed spec fn view(&self) -> ProceduralFields {
        ProceduralFields {
            name: text_view(self.name),
            chance: chance_view(self.chance),
            stat: self.stat,
            possibilities: self.possibilities@.map_values(|p: Possibility| possibility_view(p)),
        }
    }
}

/// `attr_name="value"` for a present value, else nothing (see `attribute`).
fn to_attribute(attr_name: &str, value: Option<Vec<char>>) -> (t: Vec<char>)
    ensures
        t@ == attribute(
            attr_name@,
            match value {
                Some(v) => Some(v@),
                None => None,
            },
        ),
{
    let mut t: Vec<char> = Vec::new();
    match value {
        Some(v) => {
            extend_str(&mut t, attr_name);
            extend_str(&mut t, "=\"");
            extend(&mut t, &v);
            extend_str(&mut t, "\"");
        },
        None => {},
    }
    t
}

/// An opening tag with the non-empty attributes (see `opening_tag`).
fn to_attribute_tag(tag_name: &str, attributes: &Vec<Vec<char>>) -> (t: Vec<char>)
    ensures
        t@ == opening_tag(tag_name@, attributes@.map_values(|a: Vec<char>| a@)),
{
    let ghost attrs = attributes@.map_values(|a: Vec<char>| a@);
    let mut t: Vec<char> = Vec::new();
    extend_str(&mut t, "<");
    extend_str(&mut t, tag_name);
    let ghost head = t@;
    let mut i: usize = 0;
    while i < attributes.len()
        invariant
            i <= attributes.len(),
            attrs == attributes@.map_values(|a: Vec<char>| a@),
            t@ == head + attribute_list(attrs.take(i as int)),
        decreases attributes.len() - i,
    {
        assert(attrs.take(i + 1).drop_last() =~= attrs.take(i as int));
        if attributes[i].len() > 0 {
            extend_str(&mut t, " ");
            extend(&mut t, &attributes[i]);
        }
        i = i + 1;
    }
    assert(attrs.take(attributes.len() as int) =~= attrs);
    extend_str(&mut t, ">");
    t
}

/// The characters of an optional text.
fn text_chars(o: &Option<String>) -> (r: Option<Vec<char>>)
    ensures
        match r {
            Some(v) => text_view(*o) == Some(v@),
            None => o is None,
        },
{
    match o {
        Some(s) => Some(chars_of(s.as_str())),
        None => None,
    }
}

/// The characters of an optional chance.
fn chance_chars(o: &Option<Chance>) -> (r: Option<Vec<char>>)
    ensures
        match r {
            Some(v) => chance_view(*o) == Some(v@),
            None => o is None,
        },
{
    match o {
        Some(c) => Some(chars_of(c.text().as_str())),
        None => None,
    }
}

/// A possibility's name written as the flag says (see `transformed`).
fn transform_possible_attribute(attribute: &str, flag: PossibleFlag) -> (t: Vec<char>)
    ensures
        t@ == transformed(attribute@, flag),
{
    match flag {
        PossibleFlag::Unchanged => chars_of(attribute),
        PossibleFlag::Uppercase => chars_of(to_uppercase(attribute).as_str()),
        PossibleFlag::Lowercase => chars_of(to_lowercase(attribute).as_str()),
    }
}

/// `[tag_name=attribute: NAME]` (see `name_tag`).
fn to_possible_name_tag(tag_name: &str, attribute: &str, flag: PossibleFlag) -> (t: Vec<char>)
    ensures
        t@ == name_tag(tag_name@, attribute@, flag),
{
    let mut t: Vec<char> = Vec::new();
    extend_str(&mut t, "[");
    extend_str(&mut t, tag_name);
    extend_str(&mut t, "=");
    extend_str(&mut t, attribute);
    extend_str(&mut t, ": ");
    extend(&mut t, &transform_possible_attribute(attribute, flag));
    extend_str(&mut t, "]");
    t
}

/// `[tag_name=attribute: phrase]` (see `phrase_tag`).
fn to_possible_phrase_tag(tag_name: &str, attribute: &str, pattern: &str, flag: PossibleFlag) -> (t:
    Vec<char>)
    ensures
        t@ == phrase_tag(tag_name@, attribute@, pattern@, flag),
{
    proof {
        reveal_strlit("{}");
    }
    let phrase = replace(
        &chars_of(pattern),
        &chars_of("{}"),
        &transform_possible_attribute(attribute, flag),
    );
    let mut t: Vec<char> = Vec::new();
    extend_str(&mut t, "[");
    extend_str(&mut t, tag_name);
    extend_str(&mut t, "=");
    extend_str(&mut t, attribute);
    extend_str(&mut t, ": ");
    extend(&mut t, &phrase);
    extend_str(&mut t, "]");
    t
}

/// Tags separated by `", "`.
fn join_tags(tags: &Vec<Vec<char>>) -> (t: Vec<char>)
    ensures
        t@ == joined(tags@.map_values(|a: Vec<char>| a@), ", "@),
{
    join(tags, &chars_of(", "))
}

impl Procedural {
    /// A builder with nothing in it.
    pub fn builder() -> (b: ProceduralBuilder)
        ensures
            b@ == ProceduralFields::empty(),
    {
        ProceduralBuilder::new()
    }

    /// The procedural's name, if it has one.
    pub fn name(&self) -> (n: &Option<String>)
        ensures
            text_view(*n) == self@.name,
    {
        &self.name
    }

    /// The procedural's chance, if it has one.
    pub fn chance(&self) -> (c: &Option<Chance>)
        ensures
            chance_view(*c) == self@.chance,
    {
        &self.chance
    }

    /// The stat the procedural depends on, if any.
    pub fn stat(&self) -> (s: &Option<Stat>)
        ensures
            *s == self@.stat,
    {
        &self.stat
    }

    /// The possibilities, in order.
    pub fn possibilities(&self) -> (ps: &Vec<Possibility>)
        ensures
            ps@.map_values(|p: Possibility| possibility_view(p)) == self@.possibilities,
    {
        &self.possibilities
    }

    /// The opening `<procedural>` tag (see `procedural_tag`).
    fn generate_proc_tag(&self) -> (t: Vec<char>)
        ensures
            t@ == procedural_tag(self@),
    {
        let stat = match self.stat {
            Some(s) => Some(chars_of(s.to_string().as_str())),
            None => None,
        };
        let mut attributes: Vec<Vec<char>> = Vec::new();
        attributes.push(to_attribute("name", text_chars(&self.name)));
        attributes.push(to_attribute("chance", chance_chars(&self.chance)));
        attributes.push(to_attribute("stat", stat));
        let t = to_attribute_tag("procedural", &attributes);
        assert(attributes@.map_values(|a: Vec<char>| a@) =~= seq![
            attribute("name"@, self@.name),
            attribute("chance"@, self@.chance),
            attribute("stat"@, stat_text(self@.stat)),
        ]);
        t
    }

    /// The `<poss>` elements of the possibilities, in order.
    fn generate_poss_tags(&self) -> (t: Vec<char>)
        ensures
            t@ == concat(
                self@.possibilities.map_values(
                    |p: (Option<Seq<char>>, Option<Seq<char>>)| possibility_tag(p),
                ),
            ),
    {
        let ghost ps = self@.possibilities;
        let mut t: Vec<char> = Vec::new();
        let mut i: usize = 0;
        while i < self.possibilities.len()
            invariant
                i <= self.possibilities.len(),
                ps == self@.possibilities,
                t@ == concat(
                    ps.take(i as int).map_values(
                        |p: (Option<Seq<char>>, Option<Seq<char>>)| possibility_tag(p),
                    ),
                ),
            decreases self.possibilities.len() - i,
        {
            let p = &self.possibilities[i];
            let mut attributes: Vec<Vec<char>> = Vec::new();
            attributes.push(to_attribute("name", text_chars(&p.0)));
            attributes.push(to_attribute("chance", chance_chars(&p.1)));
            let ghost pv = ps[i as int];
            assert(attributes@.map_values(|a: Vec<char>| a@) =~= seq![
                attribute("name"@, pv.0),
                attribute("chance"@, pv.1),
            ]);
            extend(&mut t, &to_attribute_tag("poss", &attributes));
            match &p.0 {
                Some(n) => {
                    extend_str(&mut t, n.as_str());
                },
                None => {},
            }
            extend_str(&mut t, "</poss>");
            i = i + 1;
            assert(ps.take(i as int).map_values(
                |p: (Option<Seq<char>>, Option<Seq<char>>)| possibility_tag(p),
            ).drop_last() =~= ps.take((i - 1) as int).map_values(
                |p: (Option<Seq<char>>, Option<Seq<char>>)| possibility_tag(p),
            ));
        }
        assert(ps.take(self.possibilities.len() as int) =~= ps);
        t
    }

    /// Generates the `<procedural>` markup (see `procedural_markup`).
    pub fn generate_procedural_string(&self) -> (s: String)
        ensures
            s@ == procedural_markup(self@),
    {
        let mut t = self.generate_proc_tag();
        extend(&mut t, &self.generate_poss_tags());
        extend_str(&mut t, "</procedural>");
        string_of(&t)
    }

    /// The names of the possibilities that have one; it is an error if none has.
    fn get_named_possibilities(&self) -> (res: Result<Vec<String>, ProceduralError>)
        ensures
            match res {
                Ok(names) => {
                    &&& self@.named_possibilities().len() > 0
                    &&& crate::text::views(names@) == self@.named_possibilities()
                },
                Err(ProceduralError::NoNamedPossibility) => self@.named_possibilities().len() == 0,
                Err(_) => false,
            },
    {
        let ghost ps = self@.possibilities;
        let mut names: Vec<String> = Vec::new();
        let mut i: usize = 0;
        while i < self.possibilities.len()
            invariant
                i <= self.possibilities.len(),
                ps == self@.possibilities,
                crate::text::views(names@) == names_of(ps.take(i as int)),
            decreases self.possibilities.len() - i,
        {
            assert(ps.take(i + 1).drop_last() =~= ps.take(i as int));
            match &self.possibilities[i].0 {
                Some(n) => {
                    names.push(n.clone());
                    assert(crate::text::views(names@) =~= names_of(ps.take(i as int)).push(n@));
                },
                None => {},
            }
            i = i + 1;
        }
        assert(ps.take(self.possibilities.len() as int) =~= ps);
        if names.len() == 0 {
            Err(ProceduralError::NoNamedPossibility)
        } else {
            Ok(names)
        }
    }

    /// Generates the list of possible names: `[name=possibility: NAME], ...`, one entry per
    /// named possibility. The procedural must have a name and a named possibility.
    pub fn generate_possible_names(&self, flag: PossibleFlag) -> (res: Result<
        String,
        ProceduralError,
    >)
        ensures
            names_listed(self@, flag, res),
    {
        let name = match &self.name {
            Some(n) => n,
            None => {
                return Err(ProceduralError::MissingName);
            },
        };
        let names = match self.get_named_possibilities() {
            Ok(names) => names,
            Err(e) => {
                return Err(e);
            },
        };
        let ghost ns = crate::text::views(names@);
        let mut tags: Vec<Vec<char>> = Vec::new();
        let mut i: usize = 0;
        while i < names.len()
            invariant
                i <= names.len(),
                ns == crate::text::views(names@),
                tags.len() == i,
                forall|j: int|
                    0 <= j < i ==> #[trigger] tags@[j]@ == name_tag(name@, ns[j], flag),
            decreases names.len() - i,
        {
            tags.push(to_possible_name_tag(name.as_str(), names[i].as_str(), flag));
            i = i + 1;
        }
        assert(tags@.map_values(|a: Vec<char>| a@) =~= ns.map_values(
            |n: Seq<char>| name_tag(name@, n, flag),
        ));
        Ok(string_of(&join_tags(&tags)))
    }

    /// Generates the list of containing phrases: `[name=possibility: phrase], ...`, one entry
    /// per named possibility, the phrase being `pattern` with each `{}` replaced by the
    /// possibility's name. The procedural must have a name and a named possibility.
    pub fn generate_possible_containing_phrases(&self, pattern: &str, flag: PossibleFlag) -> (res:
        Result<String, ProceduralError>)
        ensures
            phrases_listed(self@, pattern@, flag, res),
    {
        let name = match &self.name {
            Some(n) => n,
            None => {
                return Err(ProceduralError::MissingName);
            },
        };
        let names = match self.get_named_possibilities() {
            Ok(names) => names,
            Err(e) => {
                return Err(e);
            },
        };
        let ghost ns = crate::text::views(names@);
        let mut tags: Vec<Vec<char>> = Vec::new();
        let mut i: usize = 0;
        while i < names.len()
            invariant
                i <= names.len(),
                ns == crate::text::views(names@),
                tags.len() == i,
                forall|j: int|
                    0 <= j < i ==> #[trigger] tags@[j]@ == phrase_tag(
                        name@,
                        ns[j],
                        pattern@,
                        flag,
                    ),
            decreases names.len() - i,
        {
            tags.push(to_possible_phrase_tag(name.as_str(), names[i].as_str(), pattern, flag));
            i = i + 1;
        }
        assert(tags@.map_values(|a: Vec<char>| a@) =~= ns.map_values(
            |n: Seq<char>| phrase_tag(name@, n, pattern@, flag),
        ));
        Ok(string_of(&join_tags(&tags)))
    }
}


/// Collects a name, a chance, a stat and possibilities for a `Procedural`.
#[derive(Debug)]
pub struct ProceduralBuilder {
    name: Option<String>,
    chance: Option<Chance>,
    stat: Option<Stat>,
    possibilities: Vec<Possibility>,
}

impl View for ProceduralBuilder {
    type V = ProceduralFields;

    closed spec fn view(&self) -> ProceduralFields {
        ProceduralFields {
            name: text_view(self.name),
            chance: chance_view(self.chance),
            stat: self.stat,
            possibilities: self.possibilities@.map_values(|p: Possibility| possibility_view(p)),
        }
    }
}

impl Default for ProceduralBuilder {
    fn default() -> (b: Self)
        ensures
            b@ == ProceduralFields::empty(),
    {
        ProceduralBuilder::new()
    }
}

/// A copy of an optional text.
fn copy_text(o: &Option<String>) -> (c: Option<String>)
    ensures
        text_view(c) == text_view(*o),
{
    match o {
        Some(s) => Some(s.clone()),
        None => None,
    }
}

/// A copy of an optional chance.
fn copy_chance(o: &Option<Chance>) -> (c: Option<Chance>)
    ensures
        chance_view(c) == chance_view(*o),
{
    match o {
        Some(ch) => Some(ch.clone()),
        None => None,
    }
}

impl ProceduralBuilder {
    /// A builder with nothing in it.
    pub fn new() -> (b: ProceduralBuilder)
        ensures
            b@ == ProceduralFields::empty(),
    {
        let b = ProceduralBuilder { name: None, chance: None, stat: None, possibilities: Vec::new() };
        assert(b@ =~= ProceduralFields::empty());
        b
    }

    /// Sets the name, replacing the one set before.
    pub fn name(&mut self, name: &str) -> (res: &mut ProceduralBuilder)
        ensures
            (*res)@ == old(self)@.with_name(Some(name@)),
            *final(self) == *final(res),
    {
        self.name = Some(String::from_str(name));
        self
    }

    /// Sets the chance, replacing the one set before.
    pub fn chance(&mut self, chance: Chance) -> (res: &mut ProceduralBuilder)
        ensures
            (*res)@ == old(self)@.with_chance(Some(chance@)),
            *final(self) == *final(res),
    {
        self.chance = Some(chance);
        self
    }

    /// Sets the stat, replacing the one set before.
    pub fn stat(&mut self, stat: Stat) -> (res: &mut ProceduralBuilder)
        ensures
            (*res)@ == old(self)@.with_stat(Some(stat)),
            *final(self) == *final(res),
    {
        self.stat = Some(stat);
        self
    }

    /// Adds one possibility after those already added.
    pub fn possibility(&mut self, name: Option<&str>, chance: Option<Chance>) -> (res:
        &mut ProceduralBuilder)
        ensures
            (*res)@ == old(self)@.with_possibilities(
                old(self)@.possibilities.push(
                    (
                        match name {
                            Some(n) => Some(n@),
                            None => None,
                        },
                        chance_view(chance),
                    ),
                ),
            ),
            *final(self) == *final(res),
    {
        let owned = match name {
            Some(n) => Some(String::from_str(n)),
            None => None,
        };
        self.possibilities.push((owned, chance));
        assert(self.possibilities@.map_values(|p: Possibility| possibility_view(p))
            =~= old(self).possibilities@.map_values(|p: Possibility| possibility_view(p)).push(
            possibility_view((owned, chance)),
        ));
        self
    }

    /// Adds the possibilities, in order, after those already added.
    pub fn possibilities(&mut self, possibilities: Vec<(Option<&str>, Option<Chance>)>) -> (res:
        &mut ProceduralBuilder)
        ensures
            (*res)@ == old(self)@.with_possibilities(
                old(self)@.possibilities + possibilities@.map_values(
                    |p: (Option<&str>, Option<Chance>)|
                        (
                            match p.0 {
                                Some(n) => Some(n@),
                                None => None,
                            },
                            chance_view(p.1),
                        ),
                ),
            ),
            *final(self) == *final(res),
    {
        let ghost added = possibilities@.map_values(
            |p: (Option<&str>, Option<Chance>)|
                (
                    match p.0 {
                        Some(n) => Some(n@),
                        None => None,
                    },
                    chance_view(p.1),
                ),
        );
        let ghost before = self@.possibilities;
        let mut i: usize = 0;
        while i < possibilities.len()
            invariant
                i <= possibilities.len(),
                added == possibilities@.map_values(
                    |p: (Option<&str>, Option<Chance>)|
                        (
                            match p.0 {
                                Some(n) => Some(n@),
                                None => None,
                            },
                            chance_view(p.1),
                        ),
                ),
                self.name == old(self).name,
                self.chance == old(self).chance,
                self.stat == old(self).stat,
                before == old(self)@.possibilities,
                self.possibilities@.map_values(|p: Possibility| possibility_view(p)) == before
                    + added.take(i as int),
            decreases possibilities.len() - i,
        {
            let owned = match possibilities[i].0 {
                Some(n) => Some(String::from_str(n)),
                None => None,
            };
            let chance = copy_chance(&possibilities[i].1);
            let ghost prev = self.possibilities@;
            self.possibilities.push((owned, chance));
            i = i + 1;
            assert(self.possibilities@.map_values(|p: Possibility| possibility_view(p))
                =~= prev.map_values(|p: Possibility| possibility_view(p)).push(
                possibility_view((owned, chance)),
            ));
            assert(added.take(i as int) =~= added.take((i - 1) as int).push(added[i - 1]));
        }
        assert(added.take(possibilities.len() as int) =~= added);
        self
    }

    /// Whether the chance is neither above 100 nor below 0.
    fn validate_chance(&self, chance: &Chance) -> (b: bool)
        ensures
            b == in_percent_range(chance@),
    {
        chance.in_range()
    }

    /// Builds the procedural. The procedural's chance, then each possibility's chance in
    /// order, must be neither above 100 nor below 0; the first that is not is reported.
    pub fn build(&self) -> (res: Result<Procedural, ProceduralError>)
        ensures
            built_from(self@, res),
    {
        match &self.chance {
            Some(c) => {
                if !self.validate_chance(c) {
                    return Err(ProceduralError::ChanceOutOfRange(c.text()));
                }
            },
            None => {},
        }
        let ghost f = self@;
        let mut possibilities: Vec<Possibility> = Vec::new();
        let mut i: usize = 0;
        while i < self.possibilities.len()
            invariant
                i <= self.possibilities.len(),
                f == self@,
                chance_allowed(f.chance),
                f.possibility_chances_allowed_before(i as int),
                possibilities@.map_values(|p: Possibility| possibility_view(p))
                    == f.possibilities.take(i as int),
            decreases self.possibilities.len() - i,
        {
            let p = &self.possibilities[i];
            match &p.1 {
                Some(c) => {
                    if !self.validate_chance(c) {
                        assert(f.possibilities[i as int].1 == Some(c@));
                        return Err(ProceduralError::PossibilityChanceOutOfRange(c.text()));
                    }
                },
                None => {},
            }
            let copy = (copy_text(&p.0), copy_chance(&p.1));
            let ghost prev = possibilities@;
            possibilities.push(copy);
            i = i + 1;
            assert(possibilities@.map_values(|p: Possibility| possibility_view(p))
                =~= prev.map_values(|p: Possibility| possibility_view(p)).push(
                possibility_view(copy),
            ));
            assert(f.possibilities.take(i as int) =~= f.possibilities.take((i - 1) as int).push(
                f.possibilities[i - 1],
            ));
        }
        assert(f.possibilities.take(self.possibilities.len() as int) =~= f.possibilities);
        let p = Procedural {
            name: copy_text(&self.name),
            chance: copy_chance(&self.chance),
            stat: self.stat,
            possibilities,
        };
        assert(p@ =~= f);
        Ok(p)
    }
}


impl Procedural {
    /// Builds a procedural from what the form holds (see `form_fields`).
    pub fn from_form(
        name: &str,
        chance: Option<Chance>,
        stat: &str,
        possibilities: &Vec<(String, Option<Chance>)>,
    ) -> (res: Result<Procedural, ProceduralError>)
        ensures
            built_from(
                form_fields(
                    name@,
                    chance_view(chance),
                    stat@,
                    possibilities@.map_values(
                        |p: (String, Option<Chance>)| (p.0@, chance_view(p.1)),
                    ),
                ),
                res,
            ),
            res matches Ok(p) ==> p@.chance == chance_view(chance),
            res matches Ok(p) ==> p@.stat == stat_named(stat@),
            res matches Ok(p) ==> p@.name == if name@.len() == 0 {
                None
            } else {
                Some(name@)
            },
            res matches Ok(p) ==> p@.possibilities.len() == possibilities.len(),
            chance_view(chance) is Some && !in_percent_range(chance_view(chance)->0) ==> (res matches Err(
                ProceduralError::ChanceOutOfRange(t),
            ) && t@ == chance_view(chance)->0),
    {
        let ghost entries = possibilities@.map_values(
            |p: (String, Option<Chance>)| (p.0@, chance_view(p.1)),
        );
        let mut builder = Procedural::builder();
        if !name.is_empty() {
            builder.name(name);
        }
        match chance {
            Some(c) => {
                builder.chance(c);
            },
            None => {},
        }
        match Stat::from_name(stat) {
            Some(s) => {
                builder.stat(s);
            },
            None => {},
        }
        let ghost head = builder@;
        let mut i: usize = 0;
        while i < possibilities.len()
            invariant
                i <= possibilities.len(),
                entries == possibilities@.map_values(
                    |p: (String, Option<Chance>)| (p.0@, chance_view(p.1)),
                ),
                builder@ == head.with_possibilities(
                    entries.take(i as int).map_values(
                        |p: (Seq<char>, Option<Seq<char>>)| (unless_empty(p.0), p.1),
                    ),
                ),
            decreases possibilities.len() - i,
        {
            let entry = &possibilities[i];
            let entry_name = if entry.0.as_str().is_empty() {
                None
            } else {
                Some(entry.0.as_str())
            };
            builder.possibility(entry_name, copy_chance(&entry.1));
            i = i + 1;
            assert(entries.take(i as int).map_values(
                |p: (Seq<char>, Option<Seq<char>>)| (unless_empty(p.0), p.1),
            ) =~= entries.take((i - 1) as int).map_values(
                |p: (Seq<char>, Option<Seq<char>>)| (unless_empty(p.0), p.1),
            ).push((unless_empty(entries[i - 1].0), entries[i - 1].1)));
        }
        assert(entries.take(possibilities.len() as int) =~= entries);
        assert(builder@ =~= form_fields(name@, chance_view(chance), stat@, entries));
        let res = builder.build();
        proof {
            lemma_form_keeps_its_entries(name@, chance_view(chance), stat@, entries, res);
        }
        res
    }

    /// The list of containing phrases for the pattern the form holds, which must not be
    /// empty.
    pub fn containing_phrases_for(&self, pattern: &str, flag: PossibleFlag) -> (res: Result<
        String,
        ProceduralError,
    >)
        ensures
            pattern@.len() == 0 ==> res matches Err(ProceduralError::MissingPattern),
            pattern@.len() > 0 ==> phrases_listed(self@, pattern@, flag, res),
    {
        if pattern.is_empty() {
            Err(ProceduralError::MissingPattern)
        } else {
            self.generate_possible_containing_phrases(pattern, flag)
        }
    }
}

/// A containing phrase that is the placeholder alone is the possibility's name: listing
/// containing phrases for the pattern `{}` gives the list of possible names, or the same
/// error.
pub proof fn lemma_bare_placeholder_phrases_are_names(
    f: ProceduralFields,
    flag: PossibleFlag,
    names: Result<String, ProceduralError>,
    phrases: Result<String, ProceduralError>,
)
    requires
        names_listed(f, flag, names),
        phrases_listed(f, "{}"@, flag, phrases),
    ensures
        names is Ok <==> phrases is Ok,
        (names matches Err(ProceduralError::MissingName)) <==> (phrases matches Err(
            ProceduralError::MissingName,
        )),
        names matches Ok(a) ==> phrases matches Ok(b) && a@ == b@,
{
    reveal_strlit("{}");
    let placeholder = "{}"@;
    assert forall|n: Seq<char>| replaced(placeholder, placeholder, #[trigger] transformed(n, flag))
        == transformed(n, flag) by {
        let w = transformed(n, flag);
        assert(placeholder.len() == 2);
        assert(placeholder.take(2) =~= placeholder);
        assert(replaced(placeholder.skip(2), placeholder, w) == placeholder.skip(2));
        assert(placeholder.skip(2) =~= Seq::<char>::empty());
        assert(w + Seq::<char>::empty() =~= w);
    }
    if f.name is Some {
        let p = f.name->0;
        let ns = f.named_possibilities();
        assert(ns.map_values(|n: Seq<char>| phrase_tag(p, n, placeholder, flag)) =~= ns.map_values(
            |n: Seq<char>| name_tag(p, n, flag),
        ));
    }
}

/// A copy of the possibilities.
fn copy_possibilities(ps: &Vec<Possibility>) -> (c: Vec<Possibility>)
    ensures
        c@.map_values(|p: Possibility| possibility_view(p)) == ps@.map_values(
            |p: Possibility| possibility_view(p),
        ),
{
    let ghost target = ps@.map_values(|p: Possibility| possibility_view(p));
    let mut c: Vec<Possibility> = Vec::new();
    let mut i: usize = 0;
    while i < ps.len()
        invariant
            i <= ps.len(),
            target == ps@.map_values(|p: Possibility| possibility_view(p)),
            c@.map_values(|p: Possibility| possibility_view(p)) == target.take(i as int),
        decreases ps.len() - i,
    {
        let copy = (copy_text(&ps[i].0), copy_chance(&ps[i].1));
        let ghost prev = c@;
        c.push(copy);
        i = i + 1;
        assert(c@.map_values(|p: Possibility| possibility_view(p)) =~= prev.map_values(
            |p: Possibility| possibility_view(p),
        ).push(possibility_view(copy)));
        assert(target.take(i as int) =~= target.take((i - 1) as int).push(target[i - 1]));
    }
    assert(target.take(ps.len() as int) =~= target);
    c
}

impl Clone for Procedural {
    fn clone(&self) -> (c: Self)
        ensures
            c@ == self@,
    {
        let c = Procedural {
            name: copy_text(&self.name),
            chance: copy_chance(&self.chance),
            stat: self.stat,
            possibilities: copy_possibilities(&self.possibilities),
        };
        assert(c@ =~= self@);
        c
    }
}

impl Clone for ProceduralBuilder {
    fn clone(&self) -> (c: Self)
        ensures
            c@ == self@,
    {
        let c = ProceduralBuilder {
            name: copy_text(&self.name),
            chance: copy_chance(&self.chance),
            stat: self.stat,
            possibilities: copy_possibilities(&self.possibilities),
        };
        assert(c@ =~= self@);
        c
    }
}

/// The text of a phrase tag before its phrase: `[procedural=name: `.
pub open spec fn phrase_head(procedural: Seq<char>, name: Seq<char>) -> Seq<char> {
    "["@ + procedural + "="@ + name + ": "@
}

/// A pattern without a placeholder is the phrase as it is, whatever the flag: the flag never
/// touches the user's own text.
pub proof fn lemma_phrase_without_placeholder(
    procedural: Seq<char>,
    name: Seq<char>,
    pattern: Seq<char>,
    flag: PossibleFlag,
)
    requires
        free_of(pattern, '{'),
    ensures
        phrase_tag(procedural, name, pattern, flag) == phrase_head(procedural, name) + pattern
            + "]"@,
{
    reveal_strlit("{}");
    assert("{}"@ =~= seq!['{', '}']);
    lemma_replaced_absent(pattern, "{}"@, transformed(name, flag));
}

/// Filling the first placeholder: text before it stays as written, the placeholder becomes
/// the name as the flag writes it, and the rest of the pattern is filled as it would be on
/// its own.
pub proof fn lemma_phrase_fills_first_placeholder(
    procedural: Seq<char>,
    name: Seq<char>,
    before: Seq<char>,
    after: Seq<char>,
    rest: Seq<char>,
    flag: PossibleFlag,
)
    requires
        free_of(before, '{'),
        phrase_tag(procedural, name, after, flag) == phrase_head(procedural, name) + rest
            + "]"@,
    ensures
        phrase_tag(procedural, name, before + "{}"@ + after, flag) == phrase_head(
            procedural,
            name,
        ) + before + transformed(name, flag) + rest + "]"@,
{
    reveal_strlit("{}");
    let placeholder = "{}"@;
    assert(placeholder =~= seq!['{', '}']);
    let w = transformed(name, flag);
    let head = phrase_head(procedural, name);
    assert(before + placeholder + after =~= before + (placeholder + after));
    lemma_replaced_after_free_prefix(before, placeholder + after, placeholder, w);
    let s = placeholder + after;
    assert(s.take(2) =~= placeholder);
    assert(s.skip(2) =~= after);
    let filled_after = replaced(after, placeholder, w);
    assert(head + filled_after + "]"@ == head + rest + "]"@);
    assert((head + filled_after + "]"@).subrange(head.len() as int, (head.len() + filled_after.len()) as int)
        =~= filled_after);
    assert((head + rest + "]"@).subrange(head.len() as int, (head.len() + rest.len()) as int) =~= rest);
    assert(filled_after.len() == rest.len());
    assert(filled_after =~= rest);
    assert(phrase_tag(procedural, name, before + placeholder + after, flag) =~= head + before + w
        + rest + "]"@);
}

/// The list of three attributes: each that is not empty, after a space, in order.
proof fn lemma_attribute_list_of_three(a1: Seq<char>, a2: Seq<char>, a3: Seq<char>)
    ensures
        attribute_list(seq![a1, a2, a3]) == (if a1.len() == 0 {
            Seq::<char>::empty()
        } else {
            " "@ + a1
        }) + (if a2.len() == 0 {
            Seq::<char>::empty()
        } else {
            " "@ + a2
        }) + (if a3.len() == 0 {
            Seq::<char>::empty()
        } else {
            " "@ + a3
        }),
{
    let attrs = seq![a1, a2, a3];
    assert(attrs.drop_last() =~= seq![a1, a2]);
    assert(seq![a1, a2].drop_last() =~= seq![a1]);
    assert(seq![a1].drop_last() =~= Seq::<Seq<char>>::empty());
    assert(seq![a1].last() == a1);
    assert(seq![a1, a2].last() == a2);
    assert(attrs.last() == a3);
    let p1 = if a1.len() == 0 { Seq::<char>::empty() } else { " "@ + a1 };
    let p2 = if a2.len() == 0 { Seq::<char>::empty() } else { " "@ + a2 };
    let p3 = if a3.len() == 0 { Seq::<char>::empty() } else { " "@ + a3 };
    let l0 = attribute_list(Seq::<Seq<char>>::empty());
    assert(l0 =~= Seq::<char>::empty());
    let l1 = attribute_list(seq![a1]);
    assert(l1 =~= l0 + p1);
    let l2 = attribute_list(seq![a1, a2]);
    assert(l2 =~= l1 + p2);
    assert(attribute_list(attrs) =~= l2 + p3);
    assert(l2 + p3 =~= p1 + p2 + p3);
}

/// An attribute after its space: ` key="value"` where the value is set, nothing where it is
/// not.
proof fn lemma_spaced_attribute(key: Seq<char>, spaced_key: Seq<char>, v: Option<Seq<char>>)
    requires
        key.len() > 0,
        spaced_key == " "@ + key + "=\""@,
    ensures
        (if attribute(key, v).len() == 0 {
            Seq::<char>::empty()
        } else {
            " "@ + attribute(key, v)
        }) == (match v {
            Some(x) => spaced_key + x + "\""@,
            None => Seq::empty(),
        }),
{
    match v {
        Some(x) => {
            assert(attribute(key, v).len() > 0);
            assert(" "@ + attribute(key, v) =~= spaced_key + x + "\""@);
        },
        None => {},
    }
}

/// The opening `<procedural>` tag holds one attribute per field that is set, in the order
/// name, chance, stat, each written from its own field alone:
/// `<procedural name="N" chance="C" stat="S">`, with the parts of unset fields left out.
pub proof fn lemma_opening_tag_from_each_field(f: ProceduralFields)
    ensures
        has_prefix(
            procedural_markup(f),
            "<procedural"@ + (match f.name {
                Some(n) => " name=\""@ + n + "\""@,
                None => Seq::empty(),
            }) + (match f.chance {
                Some(c) => " chance=\""@ + c + "\""@,
                None => Seq::empty(),
            }) + (match f.stat {
                Some(st) => " stat=\""@ + st.abbreviation() + "\""@,
                None => Seq::empty(),
            }) + ">"@,
        ),
{
    reveal_strlit("<procedural");
    reveal_strlit(" name=\"");
    reveal_strlit(" chance=\"");
    reveal_strlit(" stat=\"");
    reveal_strlit("<");
    reveal_strlit("procedural");
    reveal_strlit(" ");
    reveal_strlit("name");
    reveal_strlit("chance");
    reveal_strlit("stat");
    reveal_strlit("=\"");
    assert(" name=\""@ =~= " "@ + "name"@ + "=\""@);
    assert(" chance=\""@ =~= " "@ + "chance"@ + "=\""@);
    assert(" stat=\""@ =~= " "@ + "stat"@ + "=\""@);
    assert("<procedural"@ =~= "<"@ + "procedural"@);
    let a1 = attribute("name"@, f.name);
    let a2 = attribute("chance"@, f.chance);
    let a3 = attribute("stat"@, stat_text(f.stat));
    lemma_attribute_list_of_three(a1, a2, a3);
    lemma_spaced_attribute("name"@, " name=\""@, f.name);
    lemma_spaced_attribute("chance"@, " chance=\""@, f.chance);
    lemma_spaced_attribute("stat"@, " stat=\""@, stat_text(f.stat));
    let p1: Seq<char> = match f.name {
        Some(n) => " name=\""@ + n + "\""@,
        None => Seq::empty(),
    };
    let p2: Seq<char> = match f.chance {
        Some(c) => " chance=\""@ + c + "\""@,
        None => Seq::empty(),
    };
    let p3: Seq<char> = match f.stat {
        Some(st) => " stat=\""@ + st.abbreviation() + "\""@,
        None => Seq::empty(),
    };
    assert(attribute_list(seq![a1, a2, a3]) == p1 + p2 + p3);
    let target = "<procedural"@ + p1 + p2 + p3 + ">"@;
    assert(procedural_tag(f) =~= target);
    let m = procedural_markup(f);
    let tail = concat(
        f.possibilities.map_values(|p: (Option<Seq<char>>, Option<Seq<char>>)| possibility_tag(p)),
    ) + "</procedural>"@;
    assert(m =~= target + tail);
    assert(m.take(target.len() as int) =~= target);
}

/// The opening tag carries the procedural's name whenever it has one, whether or not a
/// chance or a stat is set: the markup starts `<procedural name="N"`.
pub proof fn lemma_markup_names_the_procedural(f: ProceduralFields, n: Seq<char>)
    requires
        f.name == Some(n),
    ensures
        has_prefix(procedural_markup(f), "<procedural name=\""@ + n + "\""@),
{
    reveal_strlit("<procedural name=\"");
    reveal_strlit("<");
    reveal_strlit("procedural");
    reveal_strlit(" ");
    reveal_strlit("name");
    reveal_strlit("=\"");
    reveal_strlit("\"");
    let a1 = attribute("name"@, f.name);
    let a2 = attribute("chance"@, f.chance);
    let a3 = attribute("stat"@, stat_text(f.stat));
    let attrs = seq![a1, a2, a3];
    assert(attrs.drop_last() =~= seq![a1, a2]);
    assert(seq![a1, a2].drop_last() =~= seq![a1]);
    assert(seq![a1].drop_last() =~= Seq::<Seq<char>>::empty());
    assert(a1 == "name"@ + "=\""@ + n + "\""@);
    assert(a1.len() > 0);
    let l1 = attribute_list(seq![a1]);
    assert(l1 == attribute_list(Seq::<Seq<char>>::empty()) + " "@ + a1);
    assert(l1 =~= " "@ + a1);
    let l2 = attribute_list(seq![a1, a2]);
    let t2 = if a2.len() == 0 { Seq::<char>::empty() } else { " "@ + a2 };
    assert(l2 =~= l1 + t2);
    let l3 = attribute_list(attrs);
    let t3 = if a3.len() == 0 { Seq::<char>::empty() } else { " "@ + a3 };
    assert(l3 =~= l2 + t3);
    let target = "<procedural name=\""@ + n + "\""@;
    assert(target =~= "<"@ + "procedural"@ + " "@ + "name"@ + "=\""@ + n + "\""@);
    let m = procedural_markup(f);
    let tail = t2 + t3 + ">"@ + concat(
        f.possibilities.map_values(|p: (Option<Seq<char>>, Option<Seq<char>>)| possibility_tag(p)),
    ) + "</procedural>"@;
    assert(m =~= target + tail);
    assert(m.take(target.len() as int) =~= target);
}

/// Without a name, the opening tag starts with the chance whenever there is one:
/// `<procedural chance="C"`.
pub proof fn lemma_markup_carries_the_chance(f: ProceduralFields, c: Seq<char>)
    requires
        f.name is None,
        f.chance == Some(c),
    ensures
        has_prefix(procedural_markup(f), "<procedural chance=\""@ + c + "\""@),
{
    reveal_strlit("<procedural chance=\"");
    reveal_strlit("<");
    reveal_strlit("procedural");
    reveal_strlit(" ");
    reveal_strlit("chance");
    reveal_strlit("=\"");
    reveal_strlit("\"");
    let a1 = attribute("name"@, f.name);
    let a2 = attribute("chance"@, f.chance);
    let a3 = attribute("stat"@, stat_text(f.stat));
    let attrs = seq![a1, a2, a3];
    assert(attrs.drop_last() =~= seq![a1, a2]);
    assert(seq![a1, a2].drop_last() =~= seq![a1]);
    assert(seq![a1].drop_last() =~= Seq::<Seq<char>>::empty());
    assert(a1.len() == 0);
    assert(a2 == "chance"@ + "=\""@ + c + "\""@);
    let l1 = attribute_list(seq![a1]);
    assert(l1 == attribute_list(Seq::<Seq<char>>::empty()));
    assert(l1 =~= Seq::<char>::empty());
    let l2 = attribute_list(seq![a1, a2]);
    assert(l2 =~= " "@ + a2);
    let l3 = attribute_list(attrs);
    let t3 = if a3.len() == 0 { Seq::<char>::empty() } else { " "@ + a3 };
    assert(l3 =~= l2 + t3);
    let target = "<procedural chance=\""@ + c + "\""@;
    assert(target =~= "<"@ + "procedural"@ + " "@ + "chance"@ + "=\""@ + c + "\""@);
    let m = procedural_markup(f);
    let tail = t3 + ">"@ + concat(
        f.possibilities.map_values(|p: (Option<Seq<char>>, Option<Seq<char>>)| possibility_tag(p)),
    ) + "</procedural>"@;
    assert(m =~= target + tail);
    assert(m.take(target.len() as int) =~= target);
}

/// A procedural built from a form has exactly the chance entered in the form, the stat chosen
/// by its full name, the name unless it was left empty, and one possibility per entry; a
/// chance out of range is reported as such.
pub proof fn lemma_form_keeps_its_entries(
    name: Seq<char>,
    chance: Option<Seq<char>>,
    stat: Seq<char>,
    possibilities: Seq<(Seq<char>, Option<Seq<char>>)>,
    res: Result<Procedural, ProceduralError>,
)
    requires
        built_from(form_fields(name, chance, stat, possibilities), res),
    ensures
        res matches Ok(p) ==> p@.chance == chance,
        res matches Ok(p) ==> p@.stat == stat_named(stat),
        res matches Ok(p) ==> p@.name == if name.len() == 0 {
            None
        } else {
            Some(name)
        },
        res matches Ok(p) ==> p@.possibilities.len() == possibilities.len(),
        chance is Some && !in_percent_range(chance->0) ==> (res matches Err(
            ProceduralError::ChanceOutOfRange(t),
        ) && t@ == chance->0),
{
}

} // verus!
