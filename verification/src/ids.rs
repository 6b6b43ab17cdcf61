//! Stable, namespaced string identifiers for scenario entities.
//!
//! IDs are `UPPER_SNAKE_CASE`, namespaced by entity type, and immutable
//! for the lifetime of the entity.  Each kind is a distinct newtype so the
//! type system catches `area_id` vs `corps_id` mix-ups.  The view of an ID
//! is its character sequence.

use vstd::prelude::*;

use crate::text::{chars_of, has_prefix, push_all, push_str, starts_with, string_from_chars};

verus! {

/// Major power.  Three-letter code (`FRA`, `GBR`, …); the prefix is empty since the IDs themselves are short codes.
#[derive(Debug, Clone, PartialEq, Eq, Hash, PartialOrd, Ord)]
pub struct PowerId(pub String);

impl View for PowerId {
    type V = Seq<char>;

    open spec fn view(&self) -> Seq<char> {
        self.0@
    }
}

impl PowerId {
    /// The expected ID prefix for this kind.
    pub const PREFIX: &'static str = "";

    /// Builds an ID from its text.
    pub fn new(s: &str) -> (id: Self)
        ensures
            id@ == s@,
    {
        PowerId(s.to_owned())
    }

    /// Returns the inner string slice.
    pub fn as_str(&self) -> (s: &str)
        ensures
            s@ == self@,
    {
        self.0.as_str()
    }

    /// An equal, independently owned ID.
    pub fn duplicate(&self) -> (r: Self)
        ensures
            r == *self,
    {
        PowerId(self.0.clone())
    }

    /// Whether two IDs name the same entity.
    pub fn same(&self, other: &Self) -> (r: bool)
        ensures
            r == (self@ == other@),
    {
        self.0 == other.0
    }

    /// The ID's text as an owned string.
    pub fn to_string(&self) -> (s: String)
        ensures
            s@ == self@,
    {
        self.0.clone()
    }
}

/// Minor country.  `MINOR_<NAME>`.
#[derive(Debug, Clone, PartialEq, Eq, Hash, PartialOrd, Ord)]
pub struct MinorId(pub String);

impl View for MinorId {
    type V = Seq<char>;

    open spec fn view(&self) -> Seq<char> {
        self.0@
    }
}

impl MinorId {
    /// The expected ID prefix for this kind.
    pub const PREFIX: &'static str = "MINOR_";

    /// Builds an ID from its text.
    pub fn new(s: &str) -> (id: Self)
        ensures
            id@ == s@,
    {
        MinorId(s.to_owned())
    }

    /// Returns the inner string slice.
    pub fn as_str(&self) -> (s: &str)
        ensures
            s@ == self@,
    {
        self.0.as_str()
    }

    /// An equal, independently owned ID.
    pub fn duplicate(&self) -> (r: Self)
        ensures
            r == *self,
    {
        MinorId(self.0.clone())
    }

    /// Whether two IDs name the same entity.
    pub fn same(&self, other: &Self) -> (r: bool)
        ensures
            r == (self@ == other@),
    {
        self.0 == other.0
    }

    /// The ID's text as an owned string.
    pub fn to_string(&self) -> (s: String)
        ensures
            s@ == self@,
    {
        self.0.clone()
    }
}

/// Historical or generated leader.  `LEADER_<NAME>`.
#[derive(Debug, Clone, PartialEq, Eq, Hash, PartialOrd, Ord)]
pub struct LeaderId(pub String);

impl View for LeaderId {
    type V = Seq<char>;

    open spec fn view(&self) -> Seq<char> {
        self.0@
    }
}

impl LeaderId {
    /// The expected ID prefix for this kind.
    pub const PREFIX: &'static str = "LEADER_";

    /// Builds an ID from its text.
    pub fn new(s: &str) -> (id: Self)
        ensures
            id@ == s@,
    {
        LeaderId(s.to_owned())
    }

    /// Returns the inner string slice.
    pub fn as_str(&self) -> (s: &str)
        ensures
            s@ == self@,
    {
        self.0.as_str()
    }

    /// An equal, independently owned ID.
    pub fn duplicate(&self) -> (r: Self)
        ensures
            r == *self,
    {
        LeaderId(self.0.clone())
    }

    /// Whether two IDs name the same entity.
    pub fn same(&self, other: &Self) -> (r: bool)
        ensures
            r == (self@ == other@),
    {
        self.0 == other.0
    }

    /// The ID's text as an owned string.
    pub fn to_string(&self) -> (s: String)
        ensures
            s@ == self@,
    {
        self.0.clone()
    }
}

/// Land area on the strategic map.  `AREA_<NAME>`.
#[derive(Debug, Clone, PartialEq, Eq, Hash, PartialOrd, Ord)]
pub struct AreaId(pub String);

impl View for AreaId {
    type V = Seq<char>;

    open spec fn view(&self) -> Seq<char> {
        self.0@
    }
}

impl AreaId {
    /// The expected ID prefix for this kind.
    pub const PREFIX: &'static str = "AREA_";

    /// Builds an ID from its text.
    pub fn new(s: &str) -> (id: Self)
        ensures
            id@ == s@,
    {
        AreaId(s.to_owned())
    }

    /// Returns the inner string slice.
    pub fn as_str(&self) -> (s: &str)
        ensures
            s@ == self@,
    {
        self.0.as_str()
    }

    /// An equal, independently owned ID.
    pub fn duplicate(&self) -> (r: Self)
        ensures
            r == *self,
    {
        AreaId(self.0.clone())
    }

    /// Whether two IDs name the same entity.
    pub fn same(&self, other: &Self) -> (r: bool)
        ensures
            r == (self@ == other@),
    {
        self.0 == other.0
    }

    /// The ID's text as an owned string.
    pub fn to_string(&self) -> (s: String)
        ensures
            s@ == self@,
    {
        self.0.clone()
    }
}

/// Sea zone for naval movement and combat.  `SEA_<NAME>`.
#[derive(Debug, Clone, PartialEq, Eq, Hash, PartialOrd, Ord)]
pub struct SeaZoneId(pub String);

impl View for SeaZoneId {
    type V = Seq<char>;

    open spec fn view(&self) -> Seq<char> {
        self.0@
    }
}

impl SeaZoneId {
    /// The expected ID prefix for this kind.
    pub const PREFIX: &'static str = "SEA_";

    /// Builds an ID from its text.
    pub fn new(s: &str) -> (id: Self)
        ensures
            id@ == s@,
    {
        SeaZoneId(s.to_owned())
    }

    /// Returns the inner string slice.
    pub fn as_str(&self) -> (s: &str)
        ensures
            s@ == self@,
    {
        self.0.as_str()
    }

    /// An equal, independently owned ID.
    pub fn duplicate(&self) -> (r: Self)
        ensures
            r == *self,
    {
        SeaZoneId(self.0.clone())
    }

    /// Whether two IDs name the same entity.
    pub fn same(&self, other: &Self) -> (r: bool)
        ensures
            r == (self@ == other@),
    {
        self.0 == other.0
    }

    /// The ID's text as an owned string.
    pub fn to_string(&self) -> (s: String)
        ensures
            s@ == self@,
    {
        self.0.clone()
    }
}

/// Corps (land formation).  `CORPS_<PWR>_<NNN>`.
#[derive(Debug, Clone, PartialEq, Eq, Hash, PartialOrd, Ord)]
pub struct CorpsId(pub String);

impl View for CorpsId {
    type V = Seq<char>;

    open spec fn view(&self) -> Seq<char> {
        self.0@
    }
}

impl CorpsId {
    /// The expected ID prefix for this kind.
    pub const PREFIX: &'static str = "CORPS_";

    /// Builds an ID from its text.
    pub fn new(s: &str) -> (id: Self)
        ensures
            id@ == s@,
    {
        CorpsId(s.to_owned())
    }

    /// Returns the inner string slice.
    pub fn as_str(&self) -> (s: &str)
        ensures
            s@ == self@,
    {
        self.0.as_str()
    }

    /// An equal, independently owned ID.
    pub fn duplicate(&self) -> (r: Self)
        ensures
            r == *self,
    {
        CorpsId(self.0.clone())
    }

    /// Whether two IDs name the same entity.
    pub fn same(&self, other: &Self) -> (r: bool)
        ensures
            r == (self@ == other@),
    {
        self.0 == other.0
    }

    /// The ID's text as an owned string.
    pub fn to_string(&self) -> (s: String)
        ensures
            s@ == self@,
    {
        self.0.clone()
    }
}

/// Fleet (naval formation).  Same scheme as corps.
#[derive(Debug, Clone, PartialEq, Eq, Hash, PartialOrd, Ord)]
pub struct FleetId(pub String);

impl View for FleetId {
    type V = Seq<char>;

    open spec fn view(&self) -> Seq<char> {
        self.0@
    }
}

impl FleetId {
    /// The expected ID prefix for this kind.
    pub const PREFIX: &'static str = "FLEET_";

    /// Builds an ID from its text.
    pub fn new(s: &str) -> (id: Self)
        ensures
            id@ == s@,
    {
        FleetId(s.to_owned())
    }

    /// Returns the inner string slice.
    pub fn as_str(&self) -> (s: &str)
        ensures
            s@ == self@,
    {
        self.0.as_str()
    }

    /// An equal, independently owned ID.
    pub fn duplicate(&self) -> (r: Self)
        ensures
            r == *self,
    {
        FleetId(self.0.clone())
    }

    /// Whether two IDs name the same entity.
    pub fn same(&self, other: &Self) -> (r: bool)
        ensures
            r == (self@ == other@),
    {
        self.0 == other.0
    }

    /// The ID's text as an owned string.
    pub fn to_string(&self) -> (s: String)
        ensures
            s@ == self@,
    {
        self.0.clone()
    }
}

/// Marshal / commander.  `MARSHAL_<NAME>`.
#[derive(Debug, Clone, PartialEq, Eq, Hash, PartialOrd, Ord)]
pub struct MarshalId(pub String);

impl View for MarshalId {
    type V = Seq<char>;

    open spec fn view(&self) -> Seq<char> {
        self.0@
    }
}

impl MarshalId {
    /// The expected ID prefix for this kind.
    pub const PREFIX: &'static str = "MARSHAL_";

    /// Builds an ID from its text.
    pub fn new(s: &str) -> (id: Self)
        ensures
            id@ == s@,
    {
        MarshalId(s.to_owned())
    }

    /// Returns the inner string slice.
    pub fn as_str(&self) -> (s: &str)
        ensures
            s@ == self@,
    {
        self.0.as_str()
    }

    /// An equal, independently owned ID.
    pub fn duplicate(&self) -> (r: Self)
        ensures
            r == *self,
    {
        MarshalId(self.0.clone())
    }

    /// Whether two IDs name the same entity.
    pub fn same(&self, other: &Self) -> (r: bool)
        ensures
            r == (self@ == other@),
    {
        self.0 == other.0
    }

    /// The ID's text as an owned string.
    pub fn to_string(&self) -> (s: String)
        ensures
            s@ == self@,
    {
        self.0.clone()
    }
}

/// Front line between an attacker and a defender.  `FRONT_<ATTACKER>_<DEFENDER>`.
#[derive(Debug, Clone, PartialEq, Eq, Hash, PartialOrd, Ord)]
pub struct FrontLineId(pub String);

impl View for FrontLineId {
    type V = Seq<char>;

    open spec fn view(&self) -> Seq<char> {
        self.0@
    }
}

impl FrontLineId {
    /// The expected ID prefix for this kind.
    pub const PREFIX: &'static str = "FRONT_";

    /// Builds an ID from its text.
    pub fn new(s: &str) -> (id: Self)
        ensures
            id@ == s@,
    {
        FrontLineId(s.to_owned())
    }

    /// Returns the inner string slice.
    pub fn as_str(&self) -> (s: &str)
        ensures
            s@ == self@,
    {
        self.0.as_str()
    }

    /// An equal, independently owned ID.
    pub fn duplicate(&self) -> (r: Self)
        ensures
            r == *self,
    {
        FrontLineId(self.0.clone())
    }

    /// Whether two IDs name the same entity.
    pub fn same(&self, other: &Self) -> (r: bool)
        ensures
            r == (self@ == other@),
    {
        self.0 == other.0
    }

    /// The ID's text as an owned string.
    pub fn to_string(&self) -> (s: String)
        ensures
            s@ == self@,
    {
        self.0.clone()
    }
}

/// Division template.  `DIVTPL_<NAME>`.
#[derive(Debug, Clone, PartialEq, Eq, Hash, PartialOrd, Ord)]
pub struct DivisionTemplateId(pub String);

impl View for DivisionTemplateId {
    type V = Seq<char>;

    open spec fn view(&self) -> Seq<char> {
        self.0@
    }
}

impl DivisionTemplateId {
    /// The expected ID prefix for this kind.
    pub const PREFIX: &'static str = "DIVTPL_";

    /// Builds an ID from its text.
    pub fn new(s: &str) -> (id: Self)
        ensures
            id@ == s@,
    {
        DivisionTemplateId(s.to_owned())
    }

    /// Returns the inner string slice.
    pub fn as_str(&self) -> (s: &str)
        ensures
            s@ == self@,
    {
        self.0.as_str()
    }

    /// An equal, independently owned ID.
    pub fn duplicate(&self) -> (r: Self)
        ensures
            r == *self,
    {
        DivisionTemplateId(self.0.clone())
    }

    /// Whether two IDs name the same entity.
    pub fn same(&self, other: &Self) -> (r: bool)
        ensures
            r == (self@ == other@),
    {
        self.0 == other.0
    }

    /// The ID's text as an owned string.
    pub fn to_string(&self) -> (s: String)
        ensures
            s@ == self@,
    {
        self.0.clone()
    }
}

/// Whether `c` may appear in an ID: an ASCII capital, an ASCII digit or `_`.
pub open spec fn id_char(c: char) -> bool {
    ('A' <= c && c <= 'Z') || ('0' <= c && c <= '9') || c == '_'
}

/// Index of the first character of `s` that may not appear in an ID, if any.
pub open spec fn first_illegal(s: Seq<char>) -> Option<int>
    decreases s.len(),
{
    if s.len() == 0 {
        None
    } else if !id_char(s[0]) {
        Some(0)
    } else {
        match first_illegal(s.drop_first()) {
            Some(i) => Some(i + 1),
            None => None,
        }
    }
}

/// The verdict of [`validate_id`]: `Ok` for a well-formed ID, otherwise the
/// message naming the first problem found.
pub open spec fn id_verdict(value: Seq<char>, prefix: Seq<char>) -> Result<(), Seq<char>> {
    if value.len() == 0 {
        Err("empty id"@)
    } else if !has_prefix(value, prefix) {
        Err("id `"@ + value + "` missing required prefix `"@ + prefix + "`"@)
    } else {
        match first_illegal(value) {
            Some(i) => Err("id `"@ + value + "` contains illegal character `"@ + seq![value[i]] + "`"@),
            None => Ok(()),
        }
    }
}

proof fn lemma_first_illegal(s: Seq<char>)
    ensures
        first_illegal(s) is None <==> forall|k: int| 0 <= k < s.len() ==> id_char(#[trigger] s[k]),
        first_illegal(s) matches Some(i) ==> 0 <= i < s.len() && !id_char(s[i])
            && forall|k: int| 0 <= k < i ==> id_char(#[trigger] s[k]),
    decreases s.len(),
{
    if s.len() > 0 {
        lemma_first_illegal(s.drop_first());
        assert forall|k: int| 0 < k < s.len() implies s[k] == s.drop_first()[k - 1] by {}
        if first_illegal(s) is None {
            assert forall|k: int| 0 <= k < s.len() implies id_char(#[trigger] s[k]) by {
                if k > 0 {
                    assert(s[k] == s.drop_first()[k - 1]);
                }
            }
        }
    }
}

fn is_id_char(c: char) -> (r: bool)
    ensures
        r == id_char(c),
{
    ('A' <= c && c <= 'Z') || ('0' <= c && c <= '9') || c == '_'
}

/// Light validation: an ID must be non-empty, start with the type's
/// required prefix, and contain only `[A-Z0-9_]`.
pub fn validate_id(value: &str, required_prefix: &str) -> (r: Result<(), String>)
    ensures
        match (r, id_verdict(value@, required_prefix@)) {
            (Ok(()), Ok(())) => true,
            (Err(m), Err(e)) => m@ == e,
            _ => false,
        },
{
    let v = chars_of(value);
    if v.len() == 0 {
        let e = "empty id";
        proof {
            reveal_strlit("empty id");
        }
        return Err(e.to_owned());
    }
    let p = chars_of(required_prefix);
    if !starts_with(v.as_slice(), p.as_slice()) {
        let mut m: Vec<char> = Vec::new();
        push_str(&mut m, "id `");
        push_all(&mut m, v.as_slice());
        push_str(&mut m, "` missing required prefix `");
        push_all(&mut m, p.as_slice());
        push_str(&mut m, "`");
        return Err(string_from_chars(m.as_slice()));
    }
    proof {
        lemma_first_illegal(v@);
    }
    let mut i: usize = 0;
    while i < v.len()
        invariant
            v@ == value@,
            p@ == required_prefix@,
            v@.len() > 0,
            has_prefix(v@, p@),
            i <= v@.len(),
            forall|k: int| 0 <= k < i ==> id_char(#[trigger] v@[k]),
        decreases v@.len() - i,
    {
        if !is_id_char(v[i]) {
            let mut m: Vec<char> = Vec::new();
            push_str(&mut m, "id `");
            push_all(&mut m, v.as_slice());
            push_str(&mut m, "` contains illegal character `");
            m.push(v[i]);
            push_str(&mut m, "`");
            proof {
                lemma_first_illegal(v@);
                let j = first_illegal(v@)->0;
                assert(!id_char(v@[i as int]));
                if j < i {
                    assert(id_char(v@[j]));
                } else if j > i {
                    assert(id_char(v@[i as int]));
                }
                assert(first_illegal(v@) == Some(i as int));
            }
            return Err(string_from_chars(m.as_slice()));
        }
        i = i + 1;
    }
    Ok(())
}

} // verus!
