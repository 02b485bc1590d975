//! Path expressions over documents: resolving a path, with or without
//! wildcards, to the values it reaches; the changes between two documents;
//! and the tests that decide whether a change is allowed.

use crate::backend::{
    diff_documents, is_pointer, json_diff, pointer_target, regex_compiles, regex_finds,
    regex_is_match,
    resolve_pointer, steps_of, PatchOp, PatchStep,
};
use crate::config::{conditions_of, conditions_well_formed, Condition, PathValue};
use crate::document::{
    content_of, find_member, lemma_deeper, well_formed, Doc, Document, MAX_DEPTH,
};
use crate::path_map::{distinct_keys, has_key, position, upsert, PathMap};
use crate::text::{
    append_chars, chars_of, decimal, decimal_of, index_value, lemma_decimal_digits,
    parse_index, replace_all, replaced, same_chars, segments, split_segments, string_of,
    strings_of, texts,
};
use vstd::prelude::*;

verus! {

/// The contents of a list of documents.
pub open spec fn docs_of(docs: Seq<Document>) -> Seq<Doc> {
    docs.map_values(|d: Document| d@)
}

/// The wildcard segment, which stands for every index of an array.
pub open spec fn star() -> Seq<char> {
    seq!['*']
}

/// The values that the segments `parts` reach from `doc`, in the order of a
/// walk that takes the items of an array by ascending index.
///
/// A `*` steps into every item of an array and into nothing else. Any other
/// segment steps into the member of that name of an object, or into the item
/// of that index of an array. Where a step has nowhere to go, the walk yields
/// nothing on that branch.
pub open spec fn matches_at(doc: Doc, parts: Seq<Seq<char>>) -> Seq<Doc>
    decreases parts.len(), 0nat,
{
    if parts.len() == 0 {
        seq![doc]
    } else if parts[0] == star() {
        match doc {
            Doc::Array(items) => matches_in(items, parts.drop_first(), items.len()),
            _ => Seq::empty(),
        }
    } else {
        match doc {
            Doc::Object(members) => if members.contains_key(parts[0]) {
                matches_at(members[parts[0]], parts.drop_first())
            } else {
                Seq::empty()
            },
            Doc::Array(items) => match index_value(parts[0]) {
                Some(i) => if i < items.len() {
                    matches_at(items[i as int], parts.drop_first())
                } else {
                    Seq::empty()
                },
                None => Seq::empty(),
            },
            _ => Seq::empty(),
        }
    }
}

/// The values that `parts` reach from the first `n` of `items`, item by item.
pub open spec fn matches_in(items: Seq<Doc>, parts: Seq<Seq<char>>, n: nat) -> Seq<Doc>
    decreases parts.len(), n + 1,
{
    if n == 0 || n > items.len() {
        Seq::empty()
    } else {
        matches_in(items, parts, (n - 1) as nat) + matches_at(items[n - 1], parts)
    }
}

/// A path with the `/` that leads it, which is put in front where it is
/// missing.
pub open spec fn normalized(path: Seq<char>) -> Seq<char> {
    if path.len() > 0 && path[0] == '/' {
        path
    } else {
        seq!['/'] + path
    }
}

/// Whether none of `parts` is the wildcard.
pub open spec fn is_concrete(parts: Seq<Seq<char>>) -> bool {
    forall|i: int| 0 <= i < parts.len() ==> #[trigger] parts[i] != star()
}

/// The values at `path` in `doc`.
///
/// A path with a wildcard segment is walked segment by segment, as
/// [`matches_at`] says. A path without one is a JSON pointer, and reaches one
/// value or none.
pub open spec fn values_at(doc: Doc, path: Seq<char>) -> Seq<Doc> {
    let pointer = normalized(path);
    if !is_concrete(segments(pointer)) {
        matches_at(doc, segments(pointer))
    } else {
        match pointer_target(doc, pointer) {
            Some(value) => seq![value],
            None => Seq::empty(),
        }
    }
}

/// Whether `condition` holds of `doc`: its value is among the values at its
/// path.
pub open spec fn condition_matches(doc: Doc, condition: Condition) -> bool {
    values_at(doc, condition.path).contains(condition.value)
}

/// Whether every one of `conditions` holds of `doc`.
pub open spec fn all_conditions_match(doc: Doc, conditions: Seq<Condition>) -> bool {
    forall|i: int| 0 <= i < conditions.len() ==> condition_matches(doc, #[trigger] conditions[i])
}

/// Whether regex syntax reads `c` as an operator. These are the characters
/// that must be escaped to stand for themselves; `*` is one of them.
pub open spec fn is_regex_operator(c: char) -> bool {
    c == '\\' || c == '.' || c == '+' || c == '*' || c == '?' || c == '(' || c == ')' || c == '|'
        || c == '[' || c == ']' || c == '{' || c == '}' || c == '^' || c == '$' || c == '#' || c
        == '&' || c == '-' || c == '~'
}

/// What one character of a pattern becomes in its regex: a `*` becomes `\d+`
/// (a run of digits), any other operator of regex syntax is escaped with a
/// `\`, and any other character stands as it is.
pub open spec fn regex_piece(c: char) -> Seq<char> {
    if c == '*' {
        seq!['\\', 'd', '+']
    } else if is_regex_operator(c) {
        seq!['\\', c]
    } else {
        seq![c]
    }
}

/// The pieces of the characters of a pattern, one after another.
pub open spec fn regex_body(pattern: Seq<char>) -> Seq<char>
    decreases pattern.len(),
{
    if pattern.len() == 0 {
        Seq::empty()
    } else {
        regex_body(pattern.drop_last()) + regex_piece(pattern.last())
    }
}

/// The regex that a pattern stands for: a run of digits for each `*`, every
/// other character for itself and nothing else, between `^` and `$`, so that
/// only a match of the whole path counts.
pub open spec fn pattern_regex(pattern: Seq<char>) -> Seq<char> {
    seq!['^'] + regex_body(pattern) + seq!['$']
}

/// Whether `pattern` matches the whole of `path`. A pattern whose regex does
/// not compile matches nothing.
pub open spec fn path_matches(path: Seq<char>, pattern: Seq<char>) -> bool {
    regex_compiles(pattern_regex(pattern)) && regex_finds(pattern_regex(pattern), path)
}

/// Whether one of `patterns` matches `path`.
pub open spec fn matches_any(path: Seq<char>, patterns: Seq<Seq<char>>) -> bool {
    exists|i: int| 0 <= i < patterns.len() && path_matches(path, #[trigger] patterns[i])
}

/// The pairs of a segment and the index that follows it, taken from the
/// first `n` places of `parts`: for each place whose next segment reads as an
/// index, the segment at that place and that index.
pub open spec fn indexed_pairs(parts: Seq<Seq<char>>, n: int) -> Seq<(Seq<char>, nat)>
    decreases n,
{
    if n <= 0 || n >= parts.len() {
        Seq::empty()
    } else {
        match index_value(parts[n]) {
            Some(index) => indexed_pairs(parts, n - 1).push((parts[n - 1], index)),
            None => indexed_pairs(parts, n - 1),
        }
    }
}

/// Which array, at which index, a concrete path goes through: one pair for
/// every segment that an index follows.
pub open spec fn change_indices(path: Seq<char>) -> Seq<(Seq<char>, nat)> {
    indexed_pairs(segments(path), segments(path).len() - 1)
}

/// The wildcarded step into the array `name`.
pub open spec fn wildcard_step(name: Seq<char>) -> Seq<char> {
    seq!['/'] + name + seq!['/', '*']
}

/// The step into the array `name` at `index`.
pub open spec fn indexed_step(name: Seq<char>, index: nat) -> Seq<char> {
    seq!['/'] + name + seq!['/'] + decimal(index)
}

/// `path` with the wildcard after each named array replaced by the index
/// that `indices` gives for that name, pair by pair.
pub open spec fn resolved_path(path: Seq<char>, indices: Seq<(Seq<char>, nat)>) -> Seq<char>
    decreases indices.len(),
{
    if indices.len() == 0 {
        path
    } else {
        resolved_path(
            replaced(path, wildcard_step(indices[0].0), indexed_step(indices[0].0, indices[0].1)),
            indices.drop_first(),
        )
    }
}

/// The pointer at which a condition is read for the change at
/// `change_path`: the path of the condition, with the `/` that leads it put
/// in front where it is missing, and then with the indices of the change in
/// place of its wildcards.
pub open spec fn condition_pointer(change_path: Seq<char>, path: Seq<char>) -> Seq<char> {
    resolved_path(normalized(path), change_indices(change_path))
}

/// Whether `condition` holds at the place of the change at `change_path`:
/// its pointer for that change reaches exactly its value in `doc`. A pointer
/// that reaches nothing, or that is malformed, does not hold.
pub open spec fn holds_at(doc: Doc, change_path: Seq<char>, condition: Condition) -> bool {
    pointer_target(doc, condition_pointer(change_path, condition.path)) == Some(condition.value)
}

/// Whether every one of `conditions` holds at the place of the change.
pub open spec fn when_holds(doc: Doc, change_path: Seq<char>, conditions: Seq<Condition>) -> bool {
    forall|i: int|
        0 <= i < conditions.len() ==> holds_at(doc, change_path, #[trigger] conditions[i])
}

/// The contents of a list of named indices.
pub open spec fn indices_of(indices: Seq<(String, usize)>) -> Seq<(Seq<char>, nat)> {
    indices.map_values(|p: (String, usize)| (p.0@, p.1 as nat))
}

/// What is recorded of a change: the value before it, where there was one,
/// and the value after it, where there is one. An addition has no value
/// before, a removal none after, a replacement has both.
pub type ChangeRecord = (Option<Document>, Option<Document>);

/// The changes between two documents, each under the concrete path at which
/// it was seen.
pub type ChangeMap = PathMap<ChangeRecord>;

/// The mathematical content of a list of changes.
pub type Changes = Seq<(Seq<char>, (Option<Doc>, Option<Doc>))>;

/// The contents of the entries of a [`ChangeMap`].
pub open spec fn records_of(pairs: Seq<(Seq<char>, ChangeRecord)>) -> Changes {
    pairs.map_values(
        |p: (Seq<char>, ChangeRecord)| (p.0, (content_of(p.1.0), content_of(p.1.1))),
    )
}

/// The length of the last segment of a path: of what follows its last `/`.
pub open spec fn tail_len(path: Seq<char>) -> nat
    decreases path.len(),
{
    if path.len() == 0 || path.last() == '/' {
        0
    } else {
        1 + tail_len(path.drop_last())
    }
}

/// `path` with the index in its last segment raised by `by`. A path whose
/// last segment is no index, or whose index cannot be raised so far, is left
/// as it is.
pub open spec fn raised(path: Seq<char>, by: nat) -> Seq<char> {
    let cut = path.len() - tail_len(path);
    match index_value(path.skip(cut)) {
        Some(index) => if by > 0 && index + by <= usize::MAX {
            path.take(cut) + decimal(index + by)
        } else {
            path
        },
        None => path,
    }
}

/// What follows the last `/` of a path is its last segment.
pub proof fn lemma_tail_len(head: Seq<char>, tail: Seq<char>)
    requires
        forall|i: int| 0 <= i < tail.len() ==> tail[i] != '/',
    ensures
        tail_len(head + seq!['/'] + tail) == tail.len(),
    decreases tail.len(),
{
    let path = head + seq!['/'] + tail;
    if tail.len() == 0 {
        assert(path.last() == '/');
    } else {
        assert(path.last() == tail.last());
        assert(path.drop_last() =~= head + seq!['/'] + tail.drop_last());
        lemma_tail_len(head, tail.drop_last());
    }
}

/// Raising the index at the end of a path gives the path with the greater
/// index at its end: `/a/1` raised by 1 is `/a/2`.
pub proof fn lemma_raised_index(head: Seq<char>, index: nat, by: nat)
    requires
        by > 0,
        index + by <= usize::MAX,
    ensures
        raised(head + seq!['/'] + decimal(index), by) == head + seq!['/'] + decimal(index + by),
{
    let tail = decimal(index);
    let path = head + seq!['/'] + tail;
    lemma_decimal_digits(index);
    assert forall|i: int| 0 <= i < tail.len() implies tail[i] != '/' by {
        assert(crate::text::is_digit(tail[i]));
    }
    lemma_tail_len(head, tail);
    let cut = path.len() - tail.len();
    assert(path.skip(cut) =~= tail);
    assert(path.take(cut) =~= head + seq!['/']);
}

/// How many of `steps` are removals at `path`.
pub open spec fn removals_at(steps: Seq<PatchStep>, path: Seq<char>) -> nat
    decreases steps.len(),
{
    if steps.len() == 0 {
        0
    } else {
        removals_at(steps.drop_last(), path) + if steps.last() == (PatchStep::Remove { path }) {
            1nat
        } else {
            0nat
        }
    }
}

/// The place in the base document of which a patch step speaks, `earlier`
/// being the steps before it.
///
/// A patch removes the items that an array has lost one after another at one
/// and the same path, since every removal moves the next item down. The
/// removal that comes after `k` others at its path therefore speaks of the
/// item `k` places further on. Every other step speaks of its own path.
pub open spec fn step_place(earlier: Seq<PatchStep>, step: PatchStep) -> Seq<char> {
    match step {
        PatchStep::Remove { path } => raised(path, removals_at(earlier, path)),
        _ => step.path(),
    }
}

/// The changes after one more patch step is taken in, `place` being the path
/// under which it is recorded and `old` the value that this path reaches in
/// the base document. An addition is recorded with the value it brings. A
/// removal or a replacement is recorded with `old`, and left out where there
/// is none. Steps of any other kind are left out.
pub open spec fn step_recorded(
    changes: Changes,
    step: PatchStep,
    place: Seq<char>,
    old: Option<Doc>,
) -> Changes {
    match step {
        PatchStep::Add { path, value } => upsert(changes, place, (None, Some(value))),
        PatchStep::Remove { path } => match old {
            Some(old) => upsert(changes, place, (Some(old), None)),
            None => changes,
        },
        PatchStep::Replace { path, value } => match old {
            Some(old) => upsert(changes, place, (Some(old), Some(value))),
            None => changes,
        },
        PatchStep::Other { path } => changes,
    }
}

/// The changes after one more patch step is taken in: it is recorded under
/// its place, with the old value read from `base` at that place.
pub open spec fn step_applied(
    changes: Changes,
    earlier: Seq<PatchStep>,
    step: PatchStep,
    base: Doc,
) -> Changes {
    step_recorded(
        changes,
        step,
        step_place(earlier, step),
        pointer_target(base, step_place(earlier, step)),
    )
}

/// The changes that a patch stands for, its steps taken in one after another.
pub open spec fn changes_of(steps: Seq<PatchStep>, base: Doc) -> Changes
    decreases steps.len(),
{
    if steps.len() == 0 {
        Seq::empty()
    } else {
        step_applied(
            changes_of(steps.drop_last(), base),
            steps.drop_last(),
            steps.last(),
            base,
        )
    }
}

/// Whether every change that has a value before it has the value that its
/// path reaches in `base`.
pub open spec fn old_values_from(changes: Changes, base: Doc) -> bool {
    forall|i: int|
        0 <= i < changes.len() ==> ((#[trigger] changes[i]).1.0 matches Some(old)
            ==> pointer_target(base, changes[i].0) == Some(old))
}

/// Recording under a path keeps every other entry and puts the new one in
/// the place that [`upsert`] gives it.
pub proof fn lemma_upsert_entries<T>(pairs: Seq<(Seq<char>, T)>, key: Seq<char>, value: T)
    ensures
        forall|i: int|
            0 <= i < upsert(pairs, key, value).len() ==> (#[trigger] upsert(pairs, key, value)[i]
                == (key, value) || (i < pairs.len() && upsert(pairs, key, value)[i] == pairs[i])),
{
}

/// The old value of every change of a patch is the value that the path of
/// the change reaches in the base document.
pub proof fn lemma_old_values_from_base(steps: Seq<PatchStep>, base: Doc)
    ensures
        old_values_from(changes_of(steps, base), base),
    decreases steps.len(),
{
    if steps.len() > 0 {
        let before = changes_of(steps.drop_last(), base);
        lemma_old_values_from_base(steps.drop_last(), base);
        let place = step_place(steps.drop_last(), steps.last());
        match steps.last() {
            PatchStep::Add { path, value } => {
                lemma_upsert_entries(before, place, (None::<Doc>, Some(value)));
            },
            PatchStep::Remove { path } => {
                if let Some(old) = pointer_target(base, place) {
                    lemma_upsert_entries(before, place, (Some(old), None::<Doc>));
                }
            },
            PatchStep::Replace { path, value } => {
                if let Some(old) = pointer_target(base, place) {
                    lemma_upsert_entries(before, place, (Some(old), Some(value)));
                }
            },
            PatchStep::Other { path } => {},
        }
    }
}

/// Recording a value and then taking contents is recording its content.
pub proof fn lemma_records_of_upsert(
    pairs: Seq<(Seq<char>, ChangeRecord)>,
    key: Seq<char>,
    value: ChangeRecord,
)
    requires
        distinct_keys(pairs),
    ensures
        records_of(upsert(pairs, key, value)) == upsert(
            records_of(pairs),
            key,
            (content_of(value.0), content_of(value.1)),
        ),
{
    let records = records_of(pairs);
    if has_key(pairs, key) {
        let p = position(pairs, key);
        assert(records[p].0 == key);
        let q = position(records, key);
        assert(pairs[q].0 == records[q].0);
        if p < q {
            assert(pairs[p].0 != pairs[q].0);
        }
        if q < p {
            assert(pairs[q].0 != pairs[p].0);
        }
    } else {
        if has_key(records, key) {
            let q = position(records, key);
            assert(pairs[q].0 == records[q].0);
        }
    }
    assert(records_of(upsert(pairs, key, value)) =~= upsert(
        records,
        key,
        (content_of(value.0), content_of(value.1)),
    ));
}

/// Whether a change at `path` is allowed: one of `patterns` matches the
/// path, and the `when` conditions, where there are any, hold at the place
/// of the change in the current document.
pub open spec fn change_allowed(
    path: Seq<char>,
    current: Doc,
    patterns: Seq<Seq<char>>,
    when: Option<Seq<Condition>>,
) -> bool {
    matches_any(path, patterns) && (when matches Some(conditions) ==> when_holds(
        current,
        path,
        conditions,
    ))
}

/// Whether every one of `changes` is allowed.
pub open spec fn all_changes_allowed(
    changes: Changes,
    current: Doc,
    patterns: Seq<Seq<char>>,
    when: Option<Seq<Condition>>,
) -> bool {
    forall|i: int|
        0 <= i < changes.len() ==> change_allowed(
            (#[trigger] changes[i]).0,
            current,
            patterns,
            when,
        )
}

/// The contents of a list of conditions that may be absent.
pub open spec fn when_of(when_conditions: Option<&[PathValue]>) -> Option<Seq<Condition>> {
    match when_conditions {
        Some(conditions) => Some(conditions_of(conditions@)),
        None => None,
    }
}

/// A document meets an empty list of conditions.
pub proof fn lemma_no_conditions_match(doc: Doc)
    ensures
        all_conditions_match(doc, Seq::empty()),
{
}

/// Segments without a wildcard that reach one value can be walked first: the
/// rest of the path is then walked from that value.
pub proof fn lemma_concrete_prefix(doc: Doc, before: Seq<Seq<char>>, rest: Seq<Seq<char>>, at: Doc)
    requires
        is_concrete(before),
        matches_at(doc, before) == seq![at],
    ensures
        matches_at(doc, before + rest) == matches_at(at, rest),
    decreases before.len(),
{
    if before.len() == 0 {
        assert(before + rest == rest);
        assert(seq![doc][0] == seq![at][0]);
    } else {
        let path = before + rest;
        assert(path[0] == before[0]);
        assert(before[0] != star());
        assert(path.drop_first() == before.drop_first() + rest);
        assert(is_concrete(before.drop_first())) by {
            assert forall|i: int| 0 <= i < before.drop_first().len() implies (
            #[trigger] before.drop_first()[i]) != star() by {
                assert(before.drop_first()[i] == before[i + 1]);
            }
        }
        assert(seq![at].len() == 1);
        match doc {
            Doc::Object(members) => {
                lemma_concrete_prefix(members[before[0]], before.drop_first(), rest, at);
            },
            Doc::Array(items) => {
                lemma_concrete_prefix(
                    items[index_value(before[0])->0 as int],
                    before.drop_first(),
                    rest,
                    at,
                );
            },
            _ => {},
        }
    }
}

/// Where the rest of a path reaches exactly one value in each of the first
/// `n` items, the walk through those items yields these values, item by item.
pub proof fn lemma_one_value_per_item(items: Seq<Doc>, rest: Seq<Seq<char>>, n: nat)
    requires
        n <= items.len(),
        forall|i: int| 0 <= i < n ==> (#[trigger] matches_at(items[i], rest)).len() == 1,
    ensures
        matches_in(items, rest, n).len() == n,
        forall|i: int| 0 <= i < n ==> (#[trigger] matches_in(items, rest, n)[i]) == matches_at(
            items[i],
            rest,
        )[0],
    decreases n,
{
    if n > 0 {
        lemma_one_value_per_item(items, rest, (n - 1) as nat);
        assert(matches_at(items[n - 1], rest).len() == 1);
    }
}

/// A path with one wildcard yields one value for each item of the array that
/// the wildcard stands in, in the order of the items: where the segments
/// before the wildcard reach an array of `items`, and the segments after it
/// reach one value in every item, the path reaches as many values as there are
/// items, the value from the item at place `i` at place `i`.
pub proof fn lemma_one_wildcard(
    doc: Doc,
    before: Seq<Seq<char>>,
    after: Seq<Seq<char>>,
    items: Seq<Doc>,
)
    requires
        is_concrete(before),
        matches_at(doc, before) == seq![Doc::Array(items)],
        forall|i: int| 0 <= i < items.len() ==> (#[trigger] matches_at(items[i], after)).len() == 1,
    ensures
        matches_at(doc, before + seq![star()] + after).len() == items.len(),
        forall|i: int|
            0 <= i < items.len() ==> (#[trigger] matches_at(
                doc,
                before + seq![star()] + after,
            )[i]) == matches_at(items[i], after)[0],
{
    let rest = seq![star()] + after;
    assert(before + seq![star()] + after == before + rest);
    lemma_concrete_prefix(doc, before, rest, Doc::Array(items));
    assert(rest[0] == star());
    assert(rest.drop_first() == after);
    lemma_one_value_per_item(items, after, items.len());
}

/// The values at a path with one wildcard: where the segments of the path
/// are those of `before`, a wildcard and those of `after`, its values are as
/// [`lemma_one_wildcard`] says, one for each item and in the order of the
/// items.
pub proof fn lemma_values_at_one_wildcard(
    doc: Doc,
    path: Seq<char>,
    before: Seq<Seq<char>>,
    after: Seq<Seq<char>>,
    items: Seq<Doc>,
)
    requires
        segments(normalized(path)) == before + seq![star()] + after,
        is_concrete(before),
        matches_at(doc, before) == seq![Doc::Array(items)],
        forall|i: int| 0 <= i < items.len() ==> (#[trigger] matches_at(items[i], after)).len() == 1,
    ensures
        values_at(doc, path).len() == items.len(),
        forall|i: int|
            0 <= i < items.len() ==> (#[trigger] values_at(doc, path)[i]) == matches_at(
                items[i],
                after,
            )[0],
{
    assert(segments(normalized(path))[before.len() as int] == star());
    lemma_one_wildcard(doc, before, after, items);
}

/// A wildcard with nothing after it yields the items of the array themselves.
pub proof fn lemma_trailing_wildcard(doc: Doc, before: Seq<Seq<char>>, items: Seq<Doc>)
    requires
        is_concrete(before),
        matches_at(doc, before) == seq![Doc::Array(items)],
    ensures
        matches_at(doc, before + seq![star()]) == items,
{
    let none = Seq::<Seq<char>>::empty();
    assert(before + seq![star()] + none == before + seq![star()]);
    assert forall|i: int| 0 <= i < items.len() implies (#[trigger] matches_at(items[i], none)).len()
        == 1 by {}
    lemma_one_wildcard(doc, before, none, items);
    assert(matches_at(doc, before + seq![star()]) =~= items);
}

/// A condition whose pointer for a change is no JSON pointer (after the `/`
/// that leads it is put in front, a `~` in it is followed by neither `0` nor
/// `1`) does not hold, whatever the document.
pub proof fn lemma_malformed_condition_fails(doc: Doc, change_path: Seq<char>, condition: Condition)
    requires
        !is_pointer(condition_pointer(change_path, condition.path)),
    ensures
        !holds_at(doc, change_path, condition),
{
}

/// A condition path is read the same with and without the `/` that leads it.
pub proof fn lemma_leading_slash_is_optional(doc: Doc, change_path: Seq<char>, condition: Condition)
    requires
        condition.path.len() == 0 || condition.path[0] != '/',
    ensures
        holds_at(doc, change_path, condition) == holds_at(
            doc,
            change_path,
            Condition { path: seq!['/'] + condition.path, value: condition.value },
        ),
{
    let led = seq!['/'] + condition.path;
    assert(led[0] == '/');
    assert(normalized(led) == led);
}

/// A path without wildcard that is no JSON pointer has no values, whatever
/// the document.
pub proof fn lemma_malformed_path_has_no_values(doc: Doc, path: Seq<char>)
    requires
        is_concrete(segments(normalized(path))),
        !is_pointer(normalized(path)),
    ensures
        values_at(doc, path).len() == 0,
{
}

/// A condition is read at the index of the change: where the change goes
/// through the array `name` at `index` and through no other, a condition
/// path that begins with the wildcarded step into `name`, with or without
/// the `/` that leads it, is read at the pointer that begins with the step
/// into `name` at `index`, and the rest of the path stays as it is where it
/// holds no other such wildcarded step.
pub proof fn lemma_wildcard_takes_change_index(
    change_path: Seq<char>,
    path: Seq<char>,
    name: Seq<char>,
    index: nat,
    rest: Seq<char>,
)
    requires
        change_indices(change_path) == seq![(name, index)],
        normalized(path) == wildcard_step(name) + rest,
        replaced(rest, wildcard_step(name), indexed_step(name, index)) == rest,
    ensures
        condition_pointer(change_path, path) == indexed_step(name, index) + rest,
{
    let indices = change_indices(change_path);
    let wild = wildcard_step(name);
    let pointer = wild + rest;
    assert(indices.drop_first().len() == 0);
    assert(pointer.take(wild.len() as int) == wild);
    assert(pointer.skip(wild.len() as int) == rest);
    assert(resolved_path(pointer, indices) == resolved_path(
        replaced(pointer, wild, indexed_step(name, index)),
        indices.drop_first(),
    ));
}

pub struct JsonPathMatcher;

impl JsonPathMatcher {
    /// Whether `json` meets every one of `conditions`. No condition at all
    /// is met by every document.
    pub fn matches_conditions(json: &Document, conditions: &[PathValue]) -> (matched: bool)
        requires
            well_formed(json@),
            conditions_well_formed(conditions_of(conditions@)),
        ensures
            matched == all_conditions_match(json@, conditions_of(conditions@)),
    {
        let mut i: usize = 0;
        while i < conditions.len()
            invariant
                well_formed(json@),
                conditions_well_formed(conditions_of(conditions@)),
                i <= conditions.len(),
                forall|j: int|
                    0 <= j < i ==> condition_matches(json@, #[trigger] conditions_of(conditions@)[j]),
            decreases conditions.len() - i,
        {
            let condition = &conditions[i];
            assert(conditions_of(conditions@)[i as int] == condition@);
            if !Self::matches_condition(json, condition.path.as_str(), &condition.value) {
                return false;
            }
            i = i + 1;
        }
        true
    }

    /// Whether `expected_value` is among the values at `path` in `json`.
    pub fn matches_condition(json: &Document, path: &str, expected_value: &Document) -> (matched:
        bool)
        requires
            well_formed(json@),
            well_formed(expected_value@),
        ensures
            matched == values_at(json@, path@).contains(expected_value@),
    {
        let values = Self::get_values_at_path(json, path);
        let mut i: usize = 0;
        while i < values.len()
            invariant
                well_formed(expected_value@),
                i <= values.len(),
                docs_of(values@) == values_at(json@, path@),
                forall|j: int| 0 <= j < i ==> docs_of(values@)[j] != expected_value@,
            decreases values.len() - i,
        {
            assert(docs_of(values@)[i as int] == values@[i as int]@);
            if expected_value.equals(&values[i]) {
                return true;
            }
            i = i + 1;
        }
        false
    }

    /// `path` with the `/` that leads it, which is put in front where it is
    /// missing.
    pub fn normalize_path(path: &str) -> (pointer: Vec<char>)
        ensures
            pointer@ == normalized(path@),
    {
        let given = chars_of(path);
        if given.len() > 0 && given[0] == '/' {
            given
        } else {
            let mut led: Vec<char> = vec!['/'];
            append_chars(&mut led, &given);
            assert(led@ =~= seq!['/'] + given@);
            led
        }
    }

    /// The values at `path` in `json`, in the order of the walk: all that a
    /// path with wildcards reaches, or the one value of a path without.
    /// A path that leads nowhere, or that is no pointer, gives no value.
    pub fn get_values_at_path(json: &Document, path: &str) -> (values: Vec<Document>)
        requires
            well_formed(json@),
        ensures
            docs_of(values@) == values_at(json@, path@),
    {
        let pointer = Self::normalize_path(path);
        if Self::has_wildcard_segment(&pointer) {
            Self::expand_wildcard_paths(json, &pointer)
        } else {
            let text = string_of(&pointer);
            let mut values: Vec<Document> = Vec::new();
            match Self::get_value_at_json_pointer(json, text.as_str()) {
                Some(value) => {
                    values.push(value);
                },
                None => {},
            }
            values
        }
    }

    /// Whether one of the segments of `path` is the wildcard.
    fn has_wildcard_segment(path: &Vec<char>) -> (found: bool)
        ensures
            found == !is_concrete(segments(path@)),
    {
        let parts = split_segments(path);
        let wildcard: Vec<char> = vec!['*'];
        assert(wildcard@ =~= star());
        let mut i: usize = 0;
        while i < parts.len()
            invariant
                i <= parts.len(),
                wildcard@ == star(),
                texts(parts@) == segments(path@),
                forall|j: int| 0 <= j < i ==> (#[trigger] texts(parts@)[j]) != star(),
            decreases parts.len() - i,
        {
            if same_chars(&parts[i], &wildcard) {
                assert(texts(parts@)[i as int] == star());
                return true;
            }
            i = i + 1;
        }
        false
    }

    /// The values that a path with wildcards reaches in `json`.
    fn expand_wildcard_paths(json: &Document, wildcard_path: &Vec<char>) -> (values: Vec<Document>)
        requires
            well_formed(json@),
        ensures
            docs_of(values@) == matches_at(json@, segments(wildcard_path@)),
    {
        let mut results: Vec<Document> = Vec::new();
        let path_parts = split_segments(wildcard_path);
        assert(texts(path_parts@).skip(0) == texts(path_parts@));
        Self::find_wildcard_matches(json, &path_parts, 0, &mut results);
        results
    }

    /// Whether one of `patterns` matches the whole of `path`.
    pub fn path_matches_any_pattern(path: &str, patterns: &[String]) -> (matched: bool)
        ensures
            matched == matches_any(path@, strings_of(patterns@)),
    {
        let mut i: usize = 0;
        while i < patterns.len()
            invariant
                i <= patterns.len(),
                forall|j: int|
                    0 <= j < i ==> !path_matches(path@, #[trigger] strings_of(patterns@)[j]),
            decreases patterns.len() - i,
        {
            assert(strings_of(patterns@)[i as int] == patterns@[i as int]@);
            if Self::path_matches_pattern(path, patterns[i].as_str()) {
                return true;
            }
            i = i + 1;
        }
        false
    }

    /// Whether `pattern` matches the whole of `path`.
    pub fn path_matches_pattern(path: &str, pattern: &str) -> (matched: bool)
        ensures
            matched == path_matches(path@, pattern@),
    {
        let regex = Self::regex_for_pattern(pattern);
        Self::match_verdict(regex_is_match(regex.as_str(), path))
    }

    /// Whether regex syntax reads `c` as an operator.
    pub fn is_operator(c: char) -> (found: bool)
        ensures
            found == is_regex_operator(c),
    {
        c == '\\' || c == '.' || c == '+' || c == '*' || c == '?' || c == '(' || c == ')' || c
            == '|' || c == '[' || c == ']' || c == '{' || c == '}' || c == '^' || c == '$' || c
            == '#' || c == '&' || c == '-' || c == '~'
    }

    /// The regex that `pattern` stands for.
    pub fn regex_for_pattern(pattern: &str) -> (regex: String)
        ensures
            regex@ == pattern_regex(pattern@),
    {
        let chars = chars_of(pattern);
        let mut regex: Vec<char> = vec!['^'];
        let mut i: usize = 0;
        assert(regex@ =~= seq!['^'] + regex_body(chars@.take(0)));
        while i < chars.len()
            invariant
                i <= chars.len(),
                regex@ == seq!['^'] + regex_body(chars@.take(i as int)),
            decreases chars.len() - i,
        {
            let c = chars[i];
            assert(chars@.take(i + 1).drop_last() == chars@.take(i as int));
            if c == '*' {
                regex.push('\\');
                regex.push('d');
                regex.push('+');
            } else if Self::is_operator(c) {
                regex.push('\\');
                regex.push(c);
            } else {
                regex.push(c);
            }
            assert(regex@ =~= seq!['^'] + regex_body(chars@.take(i + 1)));
            i = i + 1;
        }
        assert(chars@.take(chars.len() as int) == chars@);
        regex.push('$');
        string_of(&regex)
    }

    /// What the outcome of a regex search says of a pattern: it matches when
    /// the regex compiled and found a match, and not otherwise.
    pub fn match_verdict(outcome: Option<bool>) -> (matched: bool)
        ensures
            matched == (outcome == Some(true)),
    {
        match outcome {
            Some(found) => found,
            None => false,
        }
    }

    /// Which array, at which index, the concrete path `path` goes through:
    /// for every segment that an index follows, the segment and the index.
    pub fn extract_indices_from_json_pointer(path: &str) -> (indices: Vec<(String, usize)>)
        ensures
            indices_of(indices@) == change_indices(path@),
    {
        let mut indices: Vec<(String, usize)> = Vec::new();
        let parts = split_segments(&chars_of(path));
        if parts.len() == 0 {
            return indices;
        }
        let mut i: usize = 0;
        while i < parts.len() - 1
            invariant
                parts.len() > 0,
                i <= parts.len() - 1,
                indices_of(indices@) == indexed_pairs(texts(parts@), i as int),
            decreases parts.len() - i,
        {
            match parse_index(&parts[i + 1]) {
                Some(index) => {
                    let name = string_of(&parts[i]);
                    indices.push((name, index));
                },
                None => {},
            }
            i = i + 1;
        }
        indices
    }

    /// `wildcard_path` with the wildcard after each array that `indices`
    /// names replaced by the index given for it.
    pub fn resolve_wildcard_path_with_indices(
        wildcard_path: &str,
        indices: &[(String, usize)],
    ) -> (resolved: String)
        ensures
            resolved@ == resolved_path(wildcard_path@, indices_of(indices@)),
    {
        let mut result = chars_of(wildcard_path);
        let mut i: usize = 0;
        assert(indices_of(indices@).skip(0) == indices_of(indices@));
        while i < indices.len()
            invariant
                i <= indices.len(),
                resolved_path(wildcard_path@, indices_of(indices@)) == resolved_path(
                    result@,
                    indices_of(indices@).skip(i as int),
                ),
            decreases indices.len() - i,
        {
            let ghost rest = indices_of(indices@).skip(i as int);
            assert(rest.drop_first() == indices_of(indices@).skip(i + 1));
            let name = chars_of(indices[i].0.as_str());
            let mut wildcard_pattern: Vec<char> = vec!['/'];
            append_chars(&mut wildcard_pattern, &name);
            append_chars(&mut wildcard_pattern, &vec!['/', '*']);
            assert(wildcard_pattern@ =~= wildcard_step(name@));
            let mut replacement: Vec<char> = vec!['/'];
            append_chars(&mut replacement, &name);
            replacement.push('/');
            append_chars(&mut replacement, &decimal_of(indices[i].1));
            assert(replacement@ =~= indexed_step(name@, indices@[i as int].1 as nat));
            result = replace_all(&result, &wildcard_pattern, &replacement);
            i = i + 1;
        }
        string_of(&result)
    }

    /// Whether the JSON pointer `json_pointer_path` reaches exactly
    /// `expected_value` in `json`. A pointer that reaches nothing fails.
    fn check_condition_at_json_pointer(
        json: &Document,
        json_pointer_path: &str,
        expected_value: &Document,
    ) -> (holds: bool)
        requires
            well_formed(json@),
            well_formed(expected_value@),
        ensures
            holds == (pointer_target(json@, json_pointer_path@) == Some(expected_value@)),
    {
        match Self::get_value_at_json_pointer(json, json_pointer_path) {
            Some(actual_value) => expected_value.equals(&actual_value),
            None => false,
        }
    }

    /// Whether every one of `when_conditions` holds in `json` at the place of
    /// the change at `change_path`: each condition is read at the very
    /// indices that the change path goes through. The path of a condition
    /// may start with or without a `/`. No condition at all holds
    /// everywhere.
    pub fn when_conditions_met(
        json: &Document,
        change_path: &str,
        when_conditions: &[PathValue],
    ) -> (met: bool)
        requires
            well_formed(json@),
            conditions_well_formed(conditions_of(when_conditions@)),
        ensures
            met == when_holds(json@, change_path@, conditions_of(when_conditions@)),
    {
        let indices = Self::extract_indices_from_json_pointer(change_path);
        let mut i: usize = 0;
        while i < when_conditions.len()
            invariant
                well_formed(json@),
                conditions_well_formed(conditions_of(when_conditions@)),
                i <= when_conditions.len(),
                indices_of(indices@) == change_indices(change_path@),
                forall|j: int|
                    0 <= j < i ==> holds_at(
                        json@,
                        change_path@,
                        #[trigger] conditions_of(when_conditions@)[j],
                    ),
            decreases when_conditions.len() - i,
        {
            let when_condition = &when_conditions[i];
            assert(conditions_of(when_conditions@)[i as int] == when_condition@);
            let when_path = string_of(&Self::normalize_path(when_condition.path.as_str()));
            let when_path_resolved = Self::resolve_wildcard_path_with_indices(
                when_path.as_str(),
                indices.as_slice(),
            );
            if !Self::check_condition_at_json_pointer(
                json,
                when_path_resolved.as_str(),
                &when_condition.value,
            ) {
                return false;
            }
            i = i + 1;
        }
        true
    }

    /// The changes between `base_json` and `current_json`: every place at
    /// which a value was added, removed or replaced, under its concrete path
    /// in `base_json`. Each item that an array has lost stands under its own
    /// index. The old value of a removal or a replacement is read from
    /// `base_json` at that path. A document does not differ from itself.
    pub fn get_all_changes(base_json: &Document, current_json: &Document) -> (changes: ChangeMap)
        requires
            well_formed(base_json@),
            well_formed(current_json@),
        ensures
            records_of(changes.pairs()) == changes_of(
                json_diff(base_json@, current_json@),
                base_json@,
            ),
            distinct_keys(changes.pairs()),
            old_values_from(records_of(changes.pairs()), base_json@),
            base_json@ == current_json@ ==> changes.pairs().len() == 0,
    {
        // the differ gets copies in which no name occurs twice
        let operations = diff_documents(&base_json.duplicate(), &current_json.duplicate());
        proof {
            lemma_old_values_from_base(steps_of(operations@), base_json@);
        }
        Self::changes_from_patch(base_json, operations)
    }

    /// `path` with the index in its last segment raised by `by`.
    pub fn raise_index(path: &str, by: usize) -> (moved: String)
        ensures
            moved@ == raised(path@, by as nat),
    {
        let chars = chars_of(path);
        let mut cut: usize = chars.len();
        assert(chars@.take(cut as int) == chars@);
        while cut > 0 && chars[cut - 1] != '/'
            invariant
                cut <= chars.len(),
                tail_len(chars@) == tail_len(chars@.take(cut as int)) + (chars.len() - cut),
            decreases cut,
        {
            assert(chars@.take(cut as int).drop_last() == chars@.take(cut - 1));
            cut = cut - 1;
        }
        assert(tail_len(chars@.take(cut as int)) == 0);
        let mut tail: Vec<char> = Vec::new();
        let mut i: usize = cut;
        while i < chars.len()
            invariant
                cut <= i <= chars.len(),
                tail@ == chars@.subrange(cut as int, i as int),
            decreases chars.len() - i,
        {
            tail.push(chars[i]);
            i = i + 1;
        }
        assert(tail@ == chars@.skip(cut as int));
        if by == 0 {
            return string_of(&chars);
        }
        match parse_index(&tail) {
            Some(index) => match index.checked_add(by) {
                Some(sum) => {
                    let mut moved: Vec<char> = Vec::new();
                    let mut j: usize = 0;
                    while j < cut
                        invariant
                            j <= cut <= chars.len(),
                            moved@ == chars@.take(j as int),
                        decreases cut - j,
                    {
                        moved.push(chars[j]);
                        j = j + 1;
                    }
                    append_chars(&mut moved, &decimal_of(sum));
                    string_of(&moved)
                },
                None => string_of(&chars),
            },
            None => string_of(&chars),
        }
    }

    /// How many of the first `upto` of `operations` are removals at `path`.
    fn count_removals(operations: &Vec<PatchOp>, upto: usize, path: &String) -> (count: usize)
        requires
            upto <= operations.len(),
        ensures
            count == removals_at(steps_of(operations@).take(upto as int), path@),
    {
        let mut count: usize = 0;
        let mut i: usize = 0;
        let ghost steps = steps_of(operations@);
        while i < upto
            invariant
                i <= upto <= operations.len(),
                steps == steps_of(operations@),
                count <= i,
                count == removals_at(steps.take(i as int), path@),
            decreases upto - i,
        {
            assert(steps.take(i + 1).drop_last() == steps.take(i as int));
            assert(steps.take(i + 1).last() == operations@[i as int]@);
            match &operations[i] {
                PatchOp::Remove { path: removed } => {
                    if *removed == *path {
                        count = count + 1;
                    }
                },
                _ => {},
            }
            i = i + 1;
        }
        count
    }

    /// The place in the base document of which the step at `at` speaks.
    fn place_of_step(operations: &Vec<PatchOp>, at: usize) -> (place: String)
        requires
            at < operations.len(),
        ensures
            place@ == step_place(
                steps_of(operations@).take(at as int),
                steps_of(operations@)[at as int],
            ),
    {
        match &operations[at] {
            PatchOp::Remove { path } => {
                let earlier = Self::count_removals(operations, at, path);
                Self::raise_index(path.as_str(), earlier)
            },
            other => other.path().clone(),
        }
    }

    /// Takes one more patch step into `changes`, `place` being the path under
    /// which it is recorded and `old_value` what that path reaches in the
    /// base document. An addition is recorded with the value it brings; a
    /// removal or a replacement is recorded with `old_value`, and left out
    /// where there is none; a step of another kind is left out. A step at a
    /// place that is present takes the place of the change recorded there.
    pub fn record_step(
        changes: &mut ChangeMap,
        operation: PatchOp,
        place: String,
        old_value: Option<Document>,
    )
        ensures
            records_of(final(changes).pairs()) == step_recorded(
                records_of(old(changes).pairs()),
                operation@,
                place@,
                content_of(old_value),
            ),
            distinct_keys(final(changes).pairs()),
    {
        changes.paths_are_distinct();
        let record: ChangeRecord = match operation {
            PatchOp::Add { path, value } => (None, Some(value)),
            PatchOp::Remove { path } => match old_value {
                Some(old) => (Some(old), None),
                None => {
                    return ;
                },
            },
            PatchOp::Replace { path, value } => match old_value {
                Some(old) => (Some(old), Some(value)),
                None => {
                    return ;
                },
            },
            PatchOp::Other { path } => {
                return ;
            },
        };
        proof {
            lemma_records_of_upsert(changes.pairs(), place@, record);
        }
        changes.insert(place, record);
    }

    /// The changes that the patch `operations` stands for, against the
    /// document `base_json` that it starts from: its steps recorded one after
    /// another, each under the place of which it speaks, a later step at a
    /// place taking the place of an earlier one.
    pub fn changes_from_patch(base_json: &Document, operations: Vec<PatchOp>) -> (changes:
        ChangeMap)
        requires
            well_formed(base_json@),
        ensures
            records_of(changes.pairs()) == changes_of(steps_of(operations@), base_json@),
            distinct_keys(changes.pairs()),
            operations@.len() == 0 ==> changes.pairs().len() == 0,
    {
        let ghost steps = steps_of(operations@);
        let mut places: Vec<String> = Vec::new();
        let mut i: usize = 0;
        while i < operations.len()
            invariant
                i <= operations.len(),
                steps == steps_of(operations@),
                places.len() == i,
                forall|j: int|
                    0 <= j < i ==> (#[trigger] places@[j])@ == step_place(steps.take(j), steps[j]),
            decreases operations.len() - i,
        {
            places.push(Self::place_of_step(&operations, i));
            i = i + 1;
        }
        let mut changes: ChangeMap = PathMap::new();
        let ghost mut n: int = 0;
        let mut at: usize = 0;
        for operation in it: operations
            invariant
                well_formed(base_json@),
                n == it.index(),
                at == n,
                it.seq() == operations@,
                steps == steps_of(operations@),
                places.len() == operations@.len(),
                forall|j: int|
                    0 <= j < places.len() ==> (#[trigger] places@[j])@ == step_place(
                        steps.take(j),
                        steps[j],
                    ),
                distinct_keys(changes.pairs()),
                operations@.len() == 0 ==> changes.pairs().len() == 0,
                records_of(changes.pairs()) == changes_of(steps.take(n), base_json@),
        {
            proof {
                assert(steps.take(n + 1).drop_last() == steps.take(n));
                assert(steps.take(n + 1).last() == operation@);
            }
            let place = places[at].clone();
            let old_value = match &operation {
                PatchOp::Remove { path } => Self::get_value_at_json_pointer(base_json, place.as_str()),
                PatchOp::Replace { path, value } => Self::get_value_at_json_pointer(
                    base_json,
                    place.as_str(),
                ),
                _ => None,
            };
            Self::record_step(&mut changes, operation, place, old_value);
            at = at + 1;
            proof {
                n = n + 1;
            }
        }
        assert(steps.take(steps.len() as int) == steps);
        changes
    }

    /// Whether every change between `base_json` and `current_json` is
    /// allowed: its path matches one of `allowed_patterns`, and the
    /// `when_conditions`, where there are any, hold in `current_json` at the
    /// place of the change.
    pub fn has_allowed_changes_only(
        base_json: &Document,
        current_json: &Document,
        allowed_patterns: &[String],
        when_conditions: Option<&[PathValue]>,
    ) -> (allowed: bool)
        requires
            well_formed(base_json@),
            well_formed(current_json@),
            when_conditions matches Some(conditions) ==> conditions_well_formed(
                conditions_of(conditions@),
            ),
        ensures
            allowed == all_changes_allowed(
                changes_of(json_diff(base_json@, current_json@), base_json@),
                current_json@,
                strings_of(allowed_patterns@),
                when_of(when_conditions),
            ),
    {
        let changes = Self::get_all_changes(base_json, current_json);
        let ghost records = records_of(changes.pairs());
        let mut i: usize = 0;
        while i < changes.len()
            invariant
                well_formed(current_json@),
                when_conditions matches Some(conditions) ==> conditions_well_formed(
                    conditions_of(conditions@),
                ),
                i <= changes.pairs().len(),
                records == records_of(changes.pairs()),
                records == changes_of(json_diff(base_json@, current_json@), base_json@),
                forall|j: int|
                    0 <= j < i ==> change_allowed(
                        (#[trigger] records[j]).0,
                        current_json@,
                        strings_of(allowed_patterns@),
                        when_of(when_conditions),
                    ),
            decreases changes.pairs().len() - i,
        {
            let change_path = changes.key_at(i);
            assert(records[i as int].0 == change_path@);
            if !Self::path_matches_any_pattern(change_path.as_str(), allowed_patterns) {
                return false;
            }
            let when_conditions_met = match when_conditions {
                Some(conditions) => Self::when_conditions_met(
                    current_json,
                    change_path.as_str(),
                    conditions,
                ),
                None => true,
            };
            if !when_conditions_met {
                return false;
            }
            i = i + 1;
        }
        true
    }

    /// The value that the JSON pointer `pointer` reaches in `json`.
    fn get_value_at_json_pointer(json: &Document, pointer: &str) -> (value: Option<Document>)
        requires
            well_formed(json@),
        ensures
            content_of(value) == pointer_target(json@, pointer@),
    {
        // the resolver gets a copy in which no name occurs twice
        resolve_pointer(&json.duplicate(), pointer)
    }

    /// Walks `path_parts` from the segment at `part_index` on, starting at
    /// `current`, and appends every value that the walk reaches to `results`.
    fn find_wildcard_matches(
        current: &Document,
        path_parts: &Vec<Vec<char>>,
        part_index: usize,
        results: &mut Vec<Document>,
    )
        requires
            part_index <= path_parts.len(),
            well_formed(current@),
        ensures
            docs_of(final(results)@) == docs_of(old(results)@) + matches_at(
                current@,
                texts(path_parts@).skip(part_index as int),
            ),
        decreases path_parts.len() - part_index,
    {
        let ghost parts = texts(path_parts@).skip(part_index as int);
        let ghost before = docs_of(results@);
        if part_index >= path_parts.len() {
            results.push(current.duplicate());
            return ;
        }
        let part = &path_parts[part_index];
        let ghost rest = texts(path_parts@).skip(part_index + 1);
        assert(parts.drop_first() == rest);
        let wildcard: Vec<char> = vec!['*'];
        assert(wildcard@ =~= star());
        if same_chars(part, &wildcard) {
            match current {
                Document::Array(items) => {
                    let ghost contents = current@->Array_0;
                    let mut index: usize = 0;
                    while index < items.len()
                        invariant
                            index <= items.len(),
                            well_formed(current@),
                            part_index < path_parts.len(),
                            *current == Document::Array(*items),
                            contents == current@->Array_0,
                            rest == texts(path_parts@).skip(part_index + 1),
                            docs_of(results@) == before + matches_in(contents, rest, index as nat),
                        decreases items.len() - index,
                    {
                        proof {
                            assert(current@->Array_0[index as int] == items@[index as int]@);
                            lemma_deeper(
                                items@[index as int]@,
                                (MAX_DEPTH - 1) as nat,
                                MAX_DEPTH as nat,
                            );
                        }
                        Self::find_wildcard_matches(
                            &items[index],
                            path_parts,
                            part_index + 1,
                            results,
                        );
                        index = index + 1;
                    }
                },
                _ => {},
            }
        } else {
            match current {
                Document::Object(members) => {
                    let key = string_of(part);
                    match find_member(members, &key) {
                        Some(next_value) => {
                            proof {
                                lemma_deeper(
                                    next_value@,
                                    (MAX_DEPTH - 1) as nat,
                                    MAX_DEPTH as nat,
                                );
                            }
                            Self::find_wildcard_matches(
                                next_value,
                                path_parts,
                                part_index + 1,
                                results,
                            );
                        },
                        None => {},
                    }
                },
                Document::Array(items) => {
                    match parse_index(part) {
                        Some(index) => {
                            if index < items.len() {
                                proof {
                                    assert(current@->Array_0[index as int] == items@[index as int]@);
                                    lemma_deeper(
                                        items@[index as int]@,
                                        (MAX_DEPTH - 1) as nat,
                                        MAX_DEPTH as nat,
                                    );
                                }
                                Self::find_wildcard_matches(
                                    &items[index],
                                    path_parts,
                                    part_index + 1,
                                    results,
                                );
                            }
                        },
                        None => {},
                    }
                },
                _ => {},
            }
        }
    }
}

} // verus!
