//! Documents: the trees that JSON and YAML texts stand for, with their
//! mathematical content, their equality and the bound on their depth.

use crate::backend::{canonical_number, number_text};
use crate::text::same_text;
use vstd::prelude::*;
use vstd::string::StringExecFns;

verus! {

/// A parsed document: the tree that a JSON or YAML text stands for.
///
/// A number is held as its JSON text; in a well-formed document that is the
/// text in plain form, so that equal texts mean equal numbers. An object is
/// held as the list of its members; where a name occurs more than once, the
/// last member of that name counts, and the others are no part of the
/// content. A document is well-formed where it nests no deeper than
/// [`MAX_DEPTH`] and holds numbers in plain form only: the parsers hand out
/// such documents, and the functions of the engine take no others.
#[derive(Debug)]
pub enum Document {
    Null,
    Bool(bool),
    Number(String),
    String(String),
    Array(Vec<Document>),
    Object(Vec<(String, Document)>),
}

/// The mathematical content of a [`Document`].
pub enum Doc {
    Null,
    Bool(bool),
    Number(Seq<char>),
    String(Seq<char>),
    Array(Seq<Doc>),
    Object(Map<Seq<char>, Doc>),
}

/// How deep a document that the engine reads may nest: the number of arrays
/// and objects that may stand one inside another.
pub const MAX_DEPTH: usize = 128;

/// Whether `doc` nests no deeper than `limit` arrays and objects.
pub open spec fn within_depth(doc: Doc, limit: nat) -> bool
    decreases limit,
{
    match doc {
        Doc::Array(items) => limit > 0 && forall|i: int|
            0 <= i < items.len() ==> within_depth(#[trigger] items[i], (limit - 1) as nat),
        Doc::Object(members) => limit > 0 && forall|name: Seq<char>|
            members.contains_key(name) ==> within_depth(
                #[trigger] members[name],
                (limit - 1) as nat,
            ),
        _ => true,
    }
}

/// Whether a text is a number in its plain form: the text in which
/// `serde_json` itself writes the number that the text stands for, and not
/// the negative zero. Of two numbers in plain form, equal texts mean equal
/// numbers and different texts different numbers.
pub open spec fn is_plain_number(text: Seq<char>) -> bool {
    canonical_number(text) == Some(text) && text != "-0.0"@
}

/// Whether `doc` nests no deeper than `limit` arrays and objects and holds
/// numbers in plain form only.
pub open spec fn well_formed_within(doc: Doc, limit: nat) -> bool
    decreases limit,
{
    match doc {
        Doc::Number(text) => is_plain_number(text),
        Doc::Array(items) => limit > 0 && forall|i: int|
            0 <= i < items.len() ==> well_formed_within(#[trigger] items[i], (limit - 1) as nat),
        Doc::Object(members) => limit > 0 && forall|name: Seq<char>|
            members.contains_key(name) ==> well_formed_within(
                #[trigger] members[name],
                (limit - 1) as nat,
            ),
        _ => true,
    }
}

/// Whether `doc` is a document that the engine takes: it nests no deeper than
/// [`MAX_DEPTH`] and holds numbers in plain form only.
pub open spec fn well_formed(doc: Doc) -> bool {
    well_formed_within(doc, MAX_DEPTH as nat)
}

/// What is well-formed within a limit is well-formed within any greater one,
/// and nests no deeper than the limit.
pub proof fn lemma_deeper(doc: Doc, limit: nat, more: nat)
    requires
        well_formed_within(doc, limit),
        limit <= more,
    ensures
        well_formed_within(doc, more),
        within_depth(doc, limit),
    decreases limit,
{
    match doc {
        Doc::Array(items) => {
            assert forall|i: int| 0 <= i < items.len() implies well_formed_within(
                #[trigger] items[i],
                (more - 1) as nat,
            ) && within_depth(items[i], (limit - 1) as nat) by {
                lemma_deeper(items[i], (limit - 1) as nat, (more - 1) as nat);
            }
        },
        Doc::Object(members) => {
            assert forall|name: Seq<char>| members.contains_key(name) implies well_formed_within(
                #[trigger] members[name],
                (more - 1) as nat,
            ) && within_depth(members[name], (limit - 1) as nat) by {
                lemma_deeper(members[name], (limit - 1) as nat, (more - 1) as nat);
            }
        },
        _ => {},
    }
}

/// A number text without the sign of a negative zero: `0.0` for `-0.0`, and
/// any other text as it is. The two zeros are one number.
pub open spec fn unsigned_zero(text: Seq<char>) -> Seq<char> {
    if text == "-0.0"@ {
        "0.0"@
    } else {
        text
    }
}

/// `doc` with every negative zero down to the depth `limit` written as zero.
/// What lies deeper than `limit` is cut off: null stands in its place.
pub open spec fn unsigned_within(doc: Doc, limit: nat) -> Doc
    decreases limit,
{
    match doc {
        Doc::Number(text) => Doc::Number(unsigned_zero(text)),
        Doc::Array(items) => if limit > 0 {
            Doc::Array(
                Seq::new(items.len(), |i: int| unsigned_within(items[i], (limit - 1) as nat)),
            )
        } else {
            Doc::Null
        },
        Doc::Object(members) => if limit > 0 {
            Doc::Object(
                Map::new(
                    |name: Seq<char>| members.contains_key(name),
                    |name: Seq<char>| unsigned_within(members[name], (limit - 1) as nat),
                ),
            )
        } else {
            Doc::Null
        },
        _ => doc,
    }
}

/// `doc` with every negative zero written as zero, for a document that nests
/// no deeper than [`MAX_DEPTH`].
pub open spec fn unsigned(doc: Doc) -> Doc {
    unsigned_within(doc, MAX_DEPTH as nat)
}

/// The document that the engine takes in place of `doc`: `doc` with every
/// negative zero written as zero, where `doc` nests no deeper than
/// [`MAX_DEPTH`] and is well-formed then; nothing otherwise.
pub open spec fn admitted(doc: Doc) -> Option<Doc> {
    if within_depth(doc, MAX_DEPTH as nat) && well_formed(unsigned(doc)) {
        Some(unsigned(doc))
    } else {
        None
    }
}

/// Whether no two members have the same name.
pub open spec fn names_differ(members: Seq<(String, Document)>) -> bool {
    forall|i: int, j: int|
        0 <= i < j < members.len() ==> (#[trigger] members[i]).0@ != (#[trigger] members[j]).0@
}

/// Whether a member of a copy stands for one of the first `upto` of
/// `members` that is the last of its name: whether it has the name and the
/// content of such a member.
pub open spec fn stands_for(
    copy: (String, Document),
    members: Seq<(String, Document)>,
    upto: int,
) -> bool {
    exists|j: int|
        0 <= j < upto && is_last_named(members, copy.0@, j) && copy.1@ == (#[trigger] members[j]).1@
}

/// The content of a document that may be absent.
pub open spec fn content_of(doc: Option<Document>) -> Option<Doc> {
    match doc {
        Some(d) => Some(d@),
        None => None,
    }
}

/// Whether some member is named `key`.
pub open spec fn has_member(members: Seq<(String, Document)>, key: Seq<char>) -> bool {
    exists|i: int| 0 <= i < members.len() && #[trigger] members[i].0@ == key
}

/// Whether `i` is the index of the last member named `key`.
pub open spec fn is_last_named(members: Seq<(String, Document)>, key: Seq<char>, i: int) -> bool {
    &&& 0 <= i < members.len()
    &&& members[i].0@ == key
    &&& forall|j: int| i < j < members.len() ==> (#[trigger] members[j]).0@ != key
}

/// The index of the last member named `key`, where there is one.
pub open spec fn last_named(members: Seq<(String, Document)>, key: Seq<char>) -> int {
    choose|i: int| is_last_named(members, key, i)
}

impl Document {
    /// Whether no object in the document, at any depth, has two members of
    /// one name. The list of members of such a document is its content,
    /// member for member.
    pub open spec fn no_name_twice(&self) -> bool
        decreases self,
    {
        match self {
            Document::Array(items) => forall|i: int|
                0 <= i < items@.len() ==> (#[trigger] items@[i]).no_name_twice(),
            Document::Object(members) => names_differ(members@) && forall|i: int|
                0 <= i < members@.len() ==> (#[trigger] members@[i]).1.no_name_twice(),
            _ => true,
        }
    }
}

impl View for Document {
    type V = Doc;

    open spec fn view(&self) -> Doc
        decreases self,
    {
        match self {
            Document::Null => Doc::Null,
            Document::Bool(b) => Doc::Bool(*b),
            Document::Number(text) => Doc::Number(text@),
            Document::String(text) => Doc::String(text@),
            Document::Array(items) => Doc::Array(
                Seq::new(
                    items@.len(),
                    |i: int|
                        if 0 <= i < items@.len() {
                            items@[i].view()
                        } else {
                            Doc::Null
                        },
                ),
            ),
            Document::Object(members) => Doc::Object(
                Map::new(
                    |key: Seq<char>| has_member(members@, key),
                    |key: Seq<char>|
                        {
                            let i = last_named(members@, key);
                            if 0 <= i < members@.len() {
                                members@[i].1.view()
                            } else {
                                Doc::Null
                            }
                        },
                ),
            ),
        }
    }
}

/// The last member named `key` is what the object's content holds under `key`.
pub proof fn lemma_member_view(members: Vec<(String, Document)>, key: Seq<char>, i: int)
    requires
        is_last_named(members@, key, i),
    ensures
        Document::Object(members)@ matches Doc::Object(m) && m.contains_key(key) && m[key]
            == members@[i].1@,
{
    let j = last_named(members@, key);
    assert(is_last_named(members@, key, j));
    assert(i == j) by {
        if i < j {
            assert(members@[j].0@ != key);
        }
        if j < i {
            assert(members@[i].0@ != key);
        }
    }
    assert(has_member(members@, key));
}

/// The place of the member named `key`: of the last one, where several have
/// that name.
pub fn find_member_index(members: &Vec<(String, Document)>, key: &String) -> (found: Option<usize>)
    ensures
        match found {
            Some(i) => is_last_named(members@, key@, i as int),
            None => !has_member(members@, key@),
        },
{
    let mut i: usize = members.len();
    while i > 0
        invariant
            i <= members.len(),
            forall|j: int| i <= j < members.len() ==> (#[trigger] members@[j]).0@ != key@,
        decreases i,
    {
        i = i - 1;
        if members[i].0 == *key {
            return Some(i);
        }
    }
    None
}

/// Looks up the member named `key`: the last one, where several have that name.
pub fn find_member<'a>(members: &'a Vec<(String, Document)>, key: &String) -> (found: Option<
    &'a Document,
>)
    ensures
        match found {
            Some(d) => {
                let i = last_named(members@, key@);
                let content = Document::Object(*members)@->Object_0;
                &&& is_last_named(members@, key@, i)
                &&& *d == members@[i].1
                &&& content.contains_key(key@)
                &&& content[key@] == d@
            },
            None => !has_member(members@, key@),
        },
{
    match find_member_index(members, key) {
        Some(i) => {
            proof {
                lemma_member_view(*members, key@, i as int);
            }
            Some(&members[i].1)
        },
        None => None,
    }
}

/// Whether `text` is a number in its plain form.
pub fn is_plain_number_text(text: &str) -> (plain: bool)
    ensures
        plain == is_plain_number(text@),
{
    match number_text(text) {
        Some(canonical) => same_text(canonical.as_str(), text) && !same_text(text, "-0.0"),
        None => false,
    }
}

impl Document {
    /// The member named `name` of an object: the last one, where several
    /// have that name. Anything but an object has no members.
    pub fn get(&self, name: &str) -> (member: Option<&Document>)
        ensures
            match member {
                Some(d) => self@ matches Doc::Object(members) && members.contains_key(name@)
                    && members[name@] == d@,
                None => self@ matches Doc::Object(members) ==> !members.contains_key(name@),
            },
    {
        match self {
            Document::Object(members) => {
                find_member(members, &name.to_owned())
            },
            _ => None,
        }
    }

    /// Whether the document nests no deeper than `limit` arrays and objects.
    /// The test itself goes no deeper than `limit`.
    pub fn is_within_depth(&self, limit: usize) -> (within: bool)
        ensures
            within == within_depth(self@, limit as nat),
        decreases limit,
    {
        match self {
            Document::Array(items) => {
                if limit == 0 {
                    return false;
                }
                let mut i: usize = 0;
                while i < items.len()
                    invariant
                        i <= items.len(),
                        limit > 0,
                        *self == Document::Array(*items),
                        forall|j: int|
                            0 <= j < i ==> within_depth(
                                (#[trigger] items@[j])@,
                                (limit - 1) as nat,
                            ),
                    decreases items.len() - i,
                {
                    if !items[i].is_within_depth(limit - 1) {
                        assert(self@->Array_0[i as int] == items@[i as int]@);
                        return false;
                    }
                    i = i + 1;
                }
                assert forall|j: int| 0 <= j < self@->Array_0.len() implies within_depth(
                    #[trigger] self@->Array_0[j],
                    (limit - 1) as nat,
                ) by {}
                true
            },
            Document::Object(members) => {
                if limit == 0 {
                    return false;
                }
                let mut i: usize = 0;
                while i < members.len()
                    invariant
                        i <= members.len(),
                        limit > 0,
                        *self == Document::Object(*members),
                        forall|j: int|
                            0 <= j < i ==> within_depth(
                                self@->Object_0[(#[trigger] members@[j]).0@],
                                (limit - 1) as nat,
                            ),
                    decreases members.len() - i,
                {
                    match find_member(members, &members[i].0) {
                        Some(member) => {
                            if !member.is_within_depth(limit - 1) {
                                return false;
                            }
                        },
                        None => {},
                    }
                    i = i + 1;
                }
                assert forall|name: Seq<char>|
                    self@->Object_0.contains_key(name) implies within_depth(
                    #[trigger] self@->Object_0[name],
                    (limit - 1) as nat,
                ) by {}
                true
            },
            _ => true,
        }
    }

    /// Whether the document nests no deeper than `limit` arrays and objects
    /// and holds numbers in plain form only. The test itself goes no deeper
    /// than `limit`.
    pub fn is_well_formed_within(&self, limit: usize) -> (within: bool)
        ensures
            within == well_formed_within(self@, limit as nat),
        decreases limit,
    {
        match self {
            Document::Number(text) => is_plain_number_text(text.as_str()),
            Document::Array(items) => {
                if limit == 0 {
                    return false;
                }
                let mut i: usize = 0;
                while i < items.len()
                    invariant
                        i <= items.len(),
                        limit > 0,
                        *self == Document::Array(*items),
                        forall|j: int|
                            0 <= j < i ==> well_formed_within(
                                (#[trigger] items@[j])@,
                                (limit - 1) as nat,
                            ),
                    decreases items.len() - i,
                {
                    if !items[i].is_well_formed_within(limit - 1) {
                        assert(self@->Array_0[i as int] == items@[i as int]@);
                        return false;
                    }
                    i = i + 1;
                }
                assert forall|j: int| 0 <= j < self@->Array_0.len() implies well_formed_within(
                    #[trigger] self@->Array_0[j],
                    (limit - 1) as nat,
                ) by {}
                true
            },
            Document::Object(members) => {
                if limit == 0 {
                    return false;
                }
                let mut i: usize = 0;
                while i < members.len()
                    invariant
                        i <= members.len(),
                        limit > 0,
                        *self == Document::Object(*members),
                        forall|j: int|
                            0 <= j < i ==> well_formed_within(
                                self@->Object_0[(#[trigger] members@[j]).0@],
                                (limit - 1) as nat,
                            ),
                    decreases members.len() - i,
                {
                    match find_member(members, &members[i].0) {
                        Some(member) => {
                            if !member.is_well_formed_within(limit - 1) {
                                return false;
                            }
                        },
                        None => {},
                    }
                    i = i + 1;
                }
                assert forall|name: Seq<char>|
                    self@->Object_0.contains_key(name) implies well_formed_within(
                    #[trigger] self@->Object_0[name],
                    (limit - 1) as nat,
                ) by {}
                true
            },
            _ => true,
        }
    }

    /// The document with every negative zero down to the depth `limit`
    /// written as zero, and null in place of what lies deeper. A member that
    /// a later one of its name hides is no part of the content, and null
    /// stands in its place too.
    pub fn without_negative_zero(&self, limit: usize) -> (plain: Document)
        ensures
            plain@ == unsigned_within(self@, limit as nat),
        decreases limit,
    {
        match self {
            Document::Null => Document::Null,
            Document::Bool(b) => Document::Bool(*b),
            Document::Number(text) => {
                if same_text(text.as_str(), "-0.0") {
                    Document::Number(String::from_str("0.0"))
                } else {
                    Document::Number(text.clone())
                }
            },
            Document::String(text) => Document::String(text.clone()),
            Document::Array(items) => {
                if limit == 0 {
                    return Document::Null;
                }
                let mut copies: Vec<Document> = Vec::new();
                let mut i: usize = 0;
                while i < items.len()
                    invariant
                        i <= items.len(),
                        limit > 0,
                        copies.len() == i,
                        forall|j: int|
                            0 <= j < i ==> (#[trigger] copies@[j])@ == unsigned_within(
                                items@[j]@,
                                (limit - 1) as nat,
                            ),
                    decreases items.len() - i,
                {
                    copies.push(items[i].without_negative_zero(limit - 1));
                    i = i + 1;
                }
                let plain = Document::Array(copies);
                assert(plain@->Array_0 =~= unsigned_within(self@, limit as nat)->Array_0);
                plain
            },
            Document::Object(members) => {
                if limit == 0 {
                    return Document::Null;
                }
                let mut copies: Vec<(String, Document)> = Vec::new();
                let mut i: usize = 0;
                while i < members.len()
                    invariant
                        i <= members.len(),
                        limit > 0,
                        copies.len() == i,
                        forall|j: int|
                            0 <= j < i ==> (#[trigger] copies@[j]).0@ == members@[j].0@ && (
                            is_last_named(members@, members@[j].0@, j) ==> copies@[j].1@
                                == unsigned_within(members@[j].1@, (limit - 1) as nat)),
                    decreases members.len() - i,
                {
                    let counts = match find_member_index(members, &members[i].0) {
                        Some(last) => last == i,
                        None => false,
                    };
                    let value = if counts {
                        members[i].1.without_negative_zero(limit - 1)
                    } else {
                        Document::Null
                    };
                    copies.push((members[i].0.clone(), value));
                    i = i + 1;
                }
                let plain = Document::Object(copies);
                proof {
                    lemma_unsigned_members(copies, *members, (limit - 1) as nat);
                }
                plain
            },
        }
    }

    /// The document that the engine takes in place of this one: this one
    /// with every negative zero written as zero, where it nests no deeper
    /// than [`MAX_DEPTH`] and holds no other number that is not in plain
    /// form; nothing otherwise. This is how a document that was read, from a
    /// changed file or from a policy, enters the engine.
    pub fn accept(&self) -> (taken: Option<Document>)
        ensures
            content_of(taken) == admitted(self@),
            taken matches Some(plain) ==> well_formed(plain@),
    {
        if self.is_within_depth(MAX_DEPTH) {
            let plain = self.without_negative_zero(MAX_DEPTH);
            if plain.is_well_formed() {
                return Some(plain);
            }
        }
        None
    }

    /// Whether the document is one that the engine takes: whether it nests no
    /// deeper than [`MAX_DEPTH`] and holds numbers in plain form only.
    pub fn is_well_formed(&self) -> (sound: bool)
        ensures
            sound == well_formed(self@),
    {
        self.is_well_formed_within(MAX_DEPTH)
    }

    /// Whether two documents have the same content. Numbers are the same
    /// where their texts are, which is right of numbers in plain form.
    pub fn equals(&self, other: &Document) -> (same: bool)
        requires
            well_formed(self@),
        ensures
            same == (self@ == other@),
        decreases self,
    {
        match (self, other) {
            (Document::Null, Document::Null) => true,
            (Document::Bool(a), Document::Bool(b)) => *a == *b,
            (Document::Number(a), Document::Number(b)) => *a == *b,
            (Document::String(a), Document::String(b)) => *a == *b,
            (Document::Array(a), Document::Array(b)) => {
                if a.len() != b.len() {
                    assert(self@->Array_0.len() != other@->Array_0.len());
                    return false;
                }
                let mut i: usize = 0;
                while i < a.len()
                    invariant
                        i <= a.len(),
                        a.len() == b.len(),
                        *self == Document::Array(*a),
                        *other == Document::Array(*b),
                        well_formed(self@),
                        forall|j: int| 0 <= j < i ==> a@[j]@ == b@[j]@,
                    decreases a.len() - i,
                {
                    proof {
                        assert(self@->Array_0[i as int] == a@[i as int]@);
                        lemma_deeper(a@[i as int]@, (MAX_DEPTH - 1) as nat, MAX_DEPTH as nat);
                    }
                    if !a[i].equals(&b[i]) {
                        assert(self@->Array_0[i as int] == a@[i as int]@);
                        return false;
                    }
                    i = i + 1;
                }
                assert(self@->Array_0 =~= other@->Array_0);
                true
            },
            (Document::Object(a), Document::Object(b)) => {
                // every member of `a` that counts has an equal in `b`
                let mut i: usize = 0;
                while i < a.len()
                    invariant
                        i <= a.len(),
                        *self == Document::Object(*a),
                        *other == Document::Object(*b),
                        well_formed(self@),
                        forall|j: int|
                            0 <= j < i ==> {
                                &&& other@->Object_0.contains_key(#[trigger] a@[j].0@)
                                &&& other@->Object_0[a@[j].0@] == self@->Object_0[a@[j].0@]
                            },
                    decreases a.len() - i,
                {
                    let mine = find_member(a, &a[i].0);
                    let theirs = find_member(b, &a[i].0);
                    match (mine, theirs) {
                        (Some(x), Some(y)) => {
                            proof {
                                lemma_deeper(x@, (MAX_DEPTH - 1) as nat, MAX_DEPTH as nat);
                            }
                            if !x.equals(y) {
                                return false;
                            }
                        },
                        _ => {
                            assert(!other@->Object_0.contains_key(a@[i as int].0@));
                            return false;
                        },
                    }
                    i = i + 1;
                }
                // every member of `b` has its name in `a`
                let mut k: usize = 0;
                while k < b.len()
                    invariant
                        k <= b.len(),
                        *self == Document::Object(*a),
                        *other == Document::Object(*b),
                        forall|j: int|
                            0 <= j < k ==> self@->Object_0.contains_key(#[trigger] b@[j].0@),
                    decreases b.len() - k,
                {
                    if find_member(a, &b[k].0).is_none() {
                        assert(!self@->Object_0.contains_key(b@[k as int].0@));
                        return false;
                    }
                    k = k + 1;
                }
                assert(self@->Object_0 =~= other@->Object_0);
                true
            },
            _ => false,
        }
    }
}

impl PartialEq for Document {
    /// Whether two documents have the same content. A document that is not
    /// well-formed equals none.
    fn eq(&self, other: &Document) -> (same: bool) {
        self.is_well_formed() && self.equals(other)
    }
}

impl vstd::std_specs::cmp::PartialEqSpecImpl for Document {
    open spec fn obeys_eq_spec() -> bool {
        true
    }

    open spec fn eq_spec(&self, other: &Document) -> bool {
        well_formed(self@) && self@ == other@
    }
}

impl Document {
    /// A copy with the same content, member for member.
    pub fn duplicate(&self) -> (copy: Document)
        requires
            well_formed(self@),
        ensures
            copy@ == self@,
            copy.no_name_twice(),
        decreases self,
    {
        match self {
            Document::Null => Document::Null,
            Document::Bool(b) => Document::Bool(*b),
            Document::Number(text) => Document::Number(text.clone()),
            Document::String(text) => Document::String(text.clone()),
            Document::Array(items) => {
                let mut copies: Vec<Document> = Vec::new();
                let mut i: usize = 0;
                while i < items.len()
                    invariant
                        i <= items.len(),
                        *self == Document::Array(*items),
                        well_formed(self@),
                        copies.len() == i,
                        forall|j: int|
                            0 <= j < i ==> (#[trigger] copies@[j])@ == items@[j]@
                                && copies@[j].no_name_twice(),
                    decreases items.len() - i,
                {
                    assert(self->Array_0 == *items);
                    proof {
                        assert(self@->Array_0[i as int] == items@[i as int]@);
                        lemma_deeper(items@[i as int]@, (MAX_DEPTH - 1) as nat, MAX_DEPTH as nat);
                    }
                    copies.push(items[i].duplicate());
                    i = i + 1;
                }
                let copy = Document::Array(copies);
                assert(copy@->Array_0 =~= self@->Array_0);
                copy
            },
            Document::Object(members) => {
                // a member that a later one of its name hides is no part of
                // the content, and is left out of the copy
                let mut copies: Vec<(String, Document)> = Vec::new();
                let mut i: usize = 0;
                while i < members.len()
                    invariant
                        i <= members.len(),
                        *self == Document::Object(*members),
                        well_formed(self@),
                        names_differ(copies@),
                        forall|k: int|
                            0 <= k < copies.len() ==> (#[trigger] copies@[k]).1.no_name_twice()
                                && stands_for(copies@[k], members@, i as int),
                        forall|j: int|
                            0 <= j < i && is_last_named(members@, (#[trigger] members@[j]).0@, j)
                                ==> has_member(copies@, members@[j].0@),
                    decreases members.len() - i,
                {
                    assert(self->Object_0 == *members);
                    let counts = match find_member_index(members, &members[i].0) {
                        Some(last) => last == i,
                        None => false,
                    };
                    if counts {
                        proof {
                            lemma_member_view(*members, members@[i as int].0@, i as int);
                            lemma_deeper(
                                members@[i as int].1@,
                                (MAX_DEPTH - 1) as nat,
                                MAX_DEPTH as nat,
                            );
                        }
                        let ghost before = copies@;
                        let member = (members[i].0.clone(), members[i].1.duplicate());
                        proof {
                            assert forall|k: int| 0 <= k < before.len() implies (
                            #[trigger] before[k]).0@ != member.0@ by {
                                let j = choose|j: int|
                                    0 <= j < i && is_last_named(members@, before[k].0@, j)
                                        && before[k].1@ == (#[trigger] members@[j]).1@;
                                if before[k].0@ == member.0@ {
                                    assert(members@[i as int].0@ != before[k].0@);
                                }
                            }
                        }
                        copies.push(member);
                        proof {
                            assert(copies@[before.len() as int] == member);
                            assert(stands_for(member, members@, i + 1)) by {
                                assert(member.1@ == members@[i as int].1@);
                            }
                            assert forall|k: int| 0 <= k < copies.len() implies stands_for(
                                #[trigger] copies@[k],
                                members@,
                                i + 1,
                            ) by {
                                if k < before.len() {
                                    assert(copies@[k] == before[k]);
                                    let j = choose|j: int|
                                        0 <= j < i && is_last_named(members@, before[k].0@, j)
                                            && before[k].1@ == (#[trigger] members@[j]).1@;
                                    assert(0 <= j < i + 1);
                                }
                            }
                            assert forall|j: int|
                                0 <= j < i + 1 && is_last_named(
                                    members@,
                                    (#[trigger] members@[j]).0@,
                                    j,
                                ) implies has_member(copies@, members@[j].0@) by {
                                if j < i {
                                    let k = choose|k: int|
                                        0 <= k < before.len() && #[trigger] before[k].0@
                                            == members@[j].0@;
                                    assert(copies@[k].0@ == members@[j].0@);
                                } else {
                                    assert(copies@[before.len() as int].0@ == members@[j].0@);
                                }
                            }
                        }
                    } else {
                        proof {
                            assert forall|k: int| 0 <= k < copies.len() implies stands_for(
                                #[trigger] copies@[k],
                                members@,
                                i + 1,
                            ) by {
                                let j = choose|j: int|
                                    0 <= j < i && is_last_named(members@, copies@[k].0@, j)
                                        && copies@[k].1@ == (#[trigger] members@[j]).1@;
                                assert(0 <= j < i + 1);
                            }
                        }
                    }
                    i = i + 1;
                }
                let copy = Document::Object(copies);
                proof {
                    lemma_counted_members(copies, *members);
                }
                copy
            },
        }
    }
}

impl Clone for Document {
    /// A copy with the same content. A document that is not well-formed is
    /// no document to the engine, and its copy is null.
    fn clone(&self) -> (copy: Document)
        ensures
            well_formed(self@) ==> copy@ == self@,
    {
        if self.is_well_formed() {
            self.duplicate()
        } else {
            Document::Null
        }
    }
}

/// A member list that agrees with another place by place in names, and that
/// holds at every place that is the last of its name the other's value with
/// its negative zeros written as zeros, makes the other's object with its
/// negative zeros written as zeros.
pub proof fn lemma_unsigned_members(
    a: Vec<(String, Document)>,
    b: Vec<(String, Document)>,
    limit: nat,
)
    requires
        a@.len() == b@.len(),
        forall|j: int|
            0 <= j < a@.len() ==> (#[trigger] a@[j]).0@ == b@[j].0@ && (is_last_named(
                b@,
                b@[j].0@,
                j,
            ) ==> a@[j].1@ == unsigned_within(b@[j].1@, limit)),
    ensures
        Document::Object(a)@ == unsigned_within(Document::Object(b)@, limit + 1),
{
    let m1 = Document::Object(a)@->Object_0;
    let m2 = Document::Object(b)@->Object_0;
    let wanted = unsigned_within(Document::Object(b)@, limit + 1)->Object_0;
    assert forall|key: Seq<char>| m1.contains_key(key) implies wanted.contains_key(key) && m1[key]
        == wanted[key] by {
        let k = last_named(a@, key);
        lemma_last_named(a@, key);
        assert(is_last_named(b@, key, k)) by {
            assert forall|l: int| k < l < b@.len() implies (#[trigger] b@[l]).0@ != key by {
                assert(a@[l].0@ != key);
            }
        }
        lemma_member_view(a, key, k);
        lemma_member_view(b, key, k);
    }
    assert forall|key: Seq<char>| wanted.contains_key(key) implies m1.contains_key(key) by {
        let j = choose|j: int| 0 <= j < b@.len() && #[trigger] b@[j].0@ == key;
        assert(a@[j].0@ == key);
    }
    assert(m1 =~= wanted);
}

/// A list that holds, under names that all differ, a copy of every member of
/// another list that is the last of its name, and nothing else, makes the
/// object that the other list makes.
pub proof fn lemma_counted_members(copies: Vec<(String, Document)>, members: Vec<(String, Document)>)
    requires
        names_differ(copies@),
        forall|k: int|
            0 <= k < copies@.len() ==> stands_for(
                #[trigger] copies@[k],
                members@,
                members@.len() as int,
            ),
        forall|j: int|
            0 <= j < members@.len() && is_last_named(members@, (#[trigger] members@[j]).0@, j)
                ==> has_member(copies@, members@[j].0@),
    ensures
        Document::Object(copies)@ == Document::Object(members)@,
{
    let m1 = Document::Object(copies)@->Object_0;
    let m2 = Document::Object(members)@->Object_0;
    assert forall|key: Seq<char>| m1.contains_key(key) implies m2.contains_key(key) && m1[key]
        == m2[key] by {
        lemma_last_named(copies@, key);
        let k = last_named(copies@, key);
        lemma_member_view(copies, key, k);
        let j = choose|j: int|
            0 <= j < members@.len() && is_last_named(members@, copies@[k].0@, j) && copies@[k].1@
                == (#[trigger] members@[j]).1@;
        lemma_member_view(members, key, j);
    }
    assert forall|key: Seq<char>| m2.contains_key(key) implies m1.contains_key(key) by {
        lemma_last_named(members@, key);
        let j = last_named(members@, key);
        assert(has_member(copies@, members@[j].0@));
    }
    assert(m1 =~= m2);
}

/// Where a member is named `key`, a last such member exists.
pub proof fn lemma_last_named(members: Seq<(String, Document)>, key: Seq<char>)
    requires
        has_member(members, key),
    ensures
        is_last_named(members, key, last_named(members, key)),
    decreases members.len(),
{
    let j = choose|j: int| 0 <= j < members.len() && #[trigger] members[j].0@ == key;
    if members.last().0@ == key {
        assert(is_last_named(members, key, members.len() - 1));
    } else {
        let shorter = members.drop_last();
        assert(shorter[j].0@ == key);
        lemma_last_named(shorter, key);
        let k = last_named(shorter, key);
        assert(is_last_named(members, key, k)) by {
            assert(members[k] == shorter[k]);
            assert forall|l: int| k < l < members.len() implies (#[trigger] members[l]).0@
                != key by {
                if l < shorter.len() {
                    assert(shorter[l] == members[l]);
                }
            }
        }
    }
}

} // verus!
