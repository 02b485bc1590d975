//! The policy engine: for every changed file, the first rule that applies to
//! it decides whether the change is allowed.

use crate::backend::{
    debug_list, json_diff, json_parse, json_text, list_debug_text, parse_json, parse_yaml,
    render_json, yaml_parse,
};
use crate::config::{
    conditions_of, conditions_well_formed, rules_of, rules_well_formed, Condition, Config,
    PathValue, Rule, RuleView,
};
use crate::document::{admitted, well_formed, Doc, Document, MAX_DEPTH};
use crate::git::{files_of, ChangeType, FileChange, FileChangeView, GitDiff};
use crate::json_path::{
    all_changes_allowed, all_conditions_match, change_allowed, changes_of, matches_any,
    records_of, when_holds, when_of, Changes, JsonPathMatcher,
};
use crate::text::strings_of;
use vstd::prelude::*;
use vstd::string::StringExecFns;

verus! {

/// A file that broke the rule that applies to it.
#[derive(Debug)]
pub struct Violation {
    pub file_path: String,
    pub rule_description: String,
    pub unauthorized_changes: Vec<String>,
}

/// The mathematical content of a [`Violation`].
pub struct ViolationView {
    pub file_path: Seq<char>,
    pub rule_description: Seq<char>,
    pub unauthorized_changes: Seq<Seq<char>>,
}

impl View for Violation {
    type V = ViolationView;

    open spec fn view(&self) -> ViolationView {
        ViolationView {
            file_path: self.file_path@,
            rule_description: self.rule_description@,
            unauthorized_changes: strings_of(self.unauthorized_changes@),
        }
    }
}

/// The contents of a list of violations.
pub open spec fn violations_of(violations: Seq<Violation>) -> Seq<ViolationView> {
    violations.map_values(|v: Violation| v@)
}

/// What a validation found.
#[derive(Debug)]
pub struct ValidationResult {
    /// Whether no file broke its rule.
    pub is_valid: bool,
    pub violations: Vec<Violation>,
    /// The number of changed files that were handed in.
    pub files_processed: usize,
    /// The number of files to which a rule applied.
    pub files_matched: usize,
}

/// Why a content is no document: in `cause`, what the YAML parser says of a
/// content that is neither JSON nor YAML, or that the content reads as
/// something that is not well-formed.
#[derive(Debug)]
pub struct ParseError {
    pub cause: String,
}

/// The mathematical content of a [`ParseError`].
pub struct ParseFailure {
    pub cause: Seq<char>,
}

impl View for ParseError {
    type V = ParseFailure;

    open spec fn view(&self) -> ParseFailure {
        ParseFailure { cause: self.cause@ }
    }
}

/// What is said of a content that reads as something that is not well-formed.
pub open spec fn not_well_formed() -> Seq<char> {
    "the document nests too deep or holds a number that is not in plain form"@
}

impl ParseFailure {
    /// The failure in words.
    pub open spec fn text(self) -> Seq<char> {
        "Failed to parse as YAML or JSON: "@ + self.cause
    }
}

impl ParseError {
    /// The error in words.
    pub fn describe(&self) -> (message: String)
        ensures
            message@ == self@.text(),
    {
        String::from_str("Failed to parse as YAML or JSON: ").concat(self.cause.as_str())
    }
}

/// Why a validation could not be carried through.
#[derive(Debug)]
pub enum ValidationError {
    /// A rule applies to a modified file whose content before the change
    /// cannot be read as a document.
    UnparsableBase { file_path: String, cause: ParseError },
    /// A rule applies to a modified file that has no content after the
    /// change.
    MissingCurrent { file_path: String },
    /// A rule applies to a modified file whose content after the change
    /// cannot be read as a document.
    UnparsableCurrent { file_path: String, cause: ParseError },
}

/// The mathematical content of a [`ValidationError`].
pub enum Failure {
    UnparsableBase { file_path: Seq<char>, cause: ParseFailure },
    MissingCurrent { file_path: Seq<char> },
    UnparsableCurrent { file_path: Seq<char>, cause: ParseFailure },
}

impl View for ValidationError {
    type V = Failure;

    open spec fn view(&self) -> Failure {
        match self {
            ValidationError::UnparsableBase { file_path, cause } => Failure::UnparsableBase {
                file_path: file_path@,
                cause: cause@,
            },
            ValidationError::MissingCurrent { file_path } => Failure::MissingCurrent {
                file_path: file_path@,
            },
            ValidationError::UnparsableCurrent { file_path, cause } => Failure::UnparsableCurrent {
                file_path: file_path@,
                cause: cause@,
            },
        }
    }
}

impl Failure {
    /// What failed, without its cause.
    pub open spec fn headline(self) -> Seq<char> {
        match self {
            Failure::UnparsableBase { file_path, cause } => "Failed to parse base content for "@
                + file_path,
            Failure::MissingCurrent { file_path } =>
                "No current content available for modified file: "@ + file_path,
            Failure::UnparsableCurrent { file_path, cause } =>
                "Failed to parse current content for "@ + file_path,
        }
    }

    /// The failure in words, with its cause where it has one.
    pub open spec fn text(self) -> Seq<char> {
        match self {
            Failure::UnparsableBase { file_path, cause } => self.headline() + ": "@ + cause.text(),
            Failure::MissingCurrent { file_path } => self.headline(),
            Failure::UnparsableCurrent { file_path, cause } => self.headline() + ": "@
                + cause.text(),
        }
    }
}

impl ValidationError {
    /// What failed, without its cause.
    pub fn headline(&self) -> (message: String)
        ensures
            message@ == self@.headline(),
    {
        match self {
            ValidationError::UnparsableBase { file_path, cause } => String::from_str(
                "Failed to parse base content for ",
            ).concat(file_path.as_str()),
            ValidationError::MissingCurrent { file_path } => String::from_str(
                "No current content available for modified file: ",
            ).concat(file_path.as_str()),
            ValidationError::UnparsableCurrent { file_path, cause } => String::from_str(
                "Failed to parse current content for ",
            ).concat(file_path.as_str()),
        }
    }

    /// The error in words, with its cause where it has one.
    pub fn describe(&self) -> (message: String)
        ensures
            message@ == self@.text(),
    {
        match self {
            ValidationError::UnparsableBase { file_path, cause } => self.headline().concat(
                ": ",
            ).concat(cause.describe().as_str()),
            ValidationError::MissingCurrent { file_path } => self.headline(),
            ValidationError::UnparsableCurrent { file_path, cause } => self.headline().concat(
                ": ",
            ).concat(cause.describe().as_str()),
        }
    }
}

/// What a content reads as, before it is asked whether it is well-formed: as
/// JSON or, where it is no JSON, as YAML.
pub open spec fn read_as_document(content: Seq<char>) -> Result<Doc, ParseFailure> {
    match json_parse(content) {
        Some(doc) => Ok(doc),
        None => match yaml_parse(content) {
            Ok(doc) => Ok(doc),
            Err(cause) => Err(ParseFailure { cause }),
        },
    }
}

/// The document that a content stands for: what the engine takes in place
/// of what the content reads as.
pub open spec fn parsed(content: Seq<char>) -> Result<Doc, ParseFailure> {
    match read_as_document(content) {
        Ok(doc) => match admitted(doc) {
            Some(plain) => Ok(plain),
            None => Err(ParseFailure { cause: not_well_formed() }),
        },
        Err(failure) => Err(failure),
    }
}

/// Why a file is passed over.
#[derive(Debug, Clone, Copy, PartialEq, Eq, Structural)]
pub enum SkipReason {
    /// The content that the rules are matched against is missing.
    NoContent,
    /// That content is no document.
    NotADocument,
}

/// What the policy says of one changed file.
#[derive(Debug)]
pub enum FileOutcome {
    /// The file is passed over: it has no document to match rules against.
    Skipped(SkipReason),
    /// No rule applies to the file.
    Unmatched,
    /// The rule at place `rule` is the first that applies; it allows the
    /// change, or finds the `violation`.
    Matched { rule: usize, violation: Option<Violation> },
}

/// The mathematical content of a [`FileOutcome`].
pub enum Outcome {
    Skipped(SkipReason),
    Unmatched,
    Matched { rule: int, violation: Option<ViolationView> },
}

impl View for FileOutcome {
    type V = Outcome;

    open spec fn view(&self) -> Outcome {
        match self {
            FileOutcome::Skipped(reason) => Outcome::Skipped(*reason),
            FileOutcome::Unmatched => Outcome::Unmatched,
            FileOutcome::Matched { rule, violation } => Outcome::Matched {
                rule: *rule as int,
                violation: violation_content(*violation),
            },
        }
    }
}

/// The content against which the rules are matched: for a deleted file the
/// content before the change, for any other the content after it.
pub open spec fn matching_content(change: FileChangeView) -> Option<Seq<char>> {
    if change.change_type == ChangeType::Deleted {
        change.base_content
    } else {
        change.current_content
    }
}

/// Whether `rule` applies to `doc`: all its match conditions hold.
pub open spec fn rule_applies(doc: Doc, rule: RuleView) -> bool {
    all_conditions_match(doc, rule.match_conditions)
}

/// Whether the rule at place `i` is the first that applies to `doc`.
pub open spec fn is_first_applying(doc: Doc, rules: Seq<RuleView>, i: int) -> bool {
    &&& 0 <= i < rules.len()
    &&& rule_applies(doc, rules[i])
    &&& forall|j: int| 0 <= j < i ==> !rule_applies(doc, #[trigger] rules[j])
}

/// The place of the first rule that applies to `doc`, where one does.
pub open spec fn applicable_rule(doc: Doc, rules: Seq<RuleView>) -> Option<int> {
    if exists|i: int| is_first_applying(doc, rules, i) {
        Some(choose|i: int| is_first_applying(doc, rules, i))
    } else {
        None
    }
}

/// The mark on a change whose path is allowed but whose `when` conditions
/// do not hold.
pub open spec fn when_not_met() -> Seq<char> {
    " (when condition not met)"@
}

/// The changes that `rule` does not allow, in the order of `changes`: the
/// path of a change that no allowed pattern matches, and the path with the
/// mark [`when_not_met`] of a change whose `when` conditions do not hold.
pub open spec fn unauthorized(
    changes: Changes,
    current: Doc,
    patterns: Seq<Seq<char>>,
    when: Option<Seq<Condition>>,
) -> Seq<Seq<char>>
    decreases changes.len(),
{
    if changes.len() == 0 {
        Seq::empty()
    } else {
        let before = unauthorized(changes.drop_last(), current, patterns, when);
        let path = changes.last().0;
        if !matches_any(path, patterns) {
            before.push(path)
        } else if when matches Some(conditions) && !when_holds(current, path, conditions) {
            before.push(path + when_not_met())
        } else {
            before
        }
    }
}

/// A condition in words: its path, `=`, and its value as JSON.
pub open spec fn condition_text(condition: Condition) -> Seq<char> {
    condition.path + "="@ + json_text(condition.value)
}

/// A list of conditions in words.
pub open spec fn conditions_text(conditions: Seq<Condition>) -> Seq<char> {
    list_debug_text(conditions.map_values(|c: Condition| condition_text(c)))
}

/// What is said of a rule when a file that it protects was deleted.
pub open spec fn deletion_description(rule: RuleView) -> Seq<char> {
    "Rule matching "@ + conditions_text(rule.match_conditions)
        + " prohibits deletion of files"@
}

/// What is said of a rule when a file changed where the rule allows none.
pub open spec fn modification_description(rule: RuleView) -> Seq<char> {
    "Rule matching "@ + conditions_text(rule.match_conditions) + " allows only changes to: "@
        + list_debug_text(rule.allowed_changes)
}

/// What the rule that applies to a file says of its change.
///
/// An added file is allowed, whatever it holds. A deleted file is a
/// violation. A modified file without content before the change is allowed;
/// with it, both contents are read and every change between them is held
/// against the rule: the file is a violation where one is not allowed.
pub open spec fn file_verdict(path: Seq<char>, change: FileChangeView, rule: RuleView) -> Result<
    Option<ViolationView>,
    Failure,
> {
    match change.change_type {
        ChangeType::Added => Ok(None),
        ChangeType::Deleted => Ok(
            Some(
                ViolationView {
                    file_path: path,
                    rule_description: deletion_description(rule),
                    unauthorized_changes: seq!["File deletion"@],
                },
            ),
        ),
        ChangeType::Modified => match change.base_content {
            None => Ok(None),
            Some(base_text) => match parsed(base_text) {
                Err(cause) => Err(Failure::UnparsableBase { file_path: path, cause }),
                Ok(base) => match change.current_content {
                    None => Err(Failure::MissingCurrent { file_path: path }),
                    Some(current_text) => match parsed(current_text) {
                        Err(cause) => Err(Failure::UnparsableCurrent { file_path: path, cause }),
                        Ok(current) => {
                            let found = unauthorized(
                                changes_of(json_diff(base, current), base),
                                current,
                                rule.allowed_changes,
                                rule.when_conditions,
                            );
                            if found.len() == 0 {
                                Ok(None)
                            } else {
                                Ok(
                                    Some(
                                        ViolationView {
                                            file_path: path,
                                            rule_description: modification_description(rule),
                                            unauthorized_changes: found,
                                        },
                                    ),
                                )
                            }
                        },
                    },
                },
            },
        },
    }
}

/// What the policy says of one changed file: it is passed over where it has
/// no document to match rules against, unmatched where no rule applies to
/// that document, and else it has the verdict of the first rule that
/// applies.
pub open spec fn file_outcome(rules: Seq<RuleView>, path: Seq<char>, change: FileChangeView)
    -> Result<Outcome, Failure> {
    match matching_content(change) {
        None => Ok(Outcome::Skipped(SkipReason::NoContent)),
        Some(content) => match parsed(content) {
            Err(_) => Ok(Outcome::Skipped(SkipReason::NotADocument)),
            Ok(doc) => match applicable_rule(doc, rules) {
                None => Ok(Outcome::Unmatched),
                Some(i) => match file_verdict(path, change, rules[i]) {
                    Ok(violation) => Ok(Outcome::Matched { rule: i, violation }),
                    Err(failure) => Err(failure),
                },
            },
        },
    }
}

/// The violations found and the number of files matched so far.
pub struct Tally {
    pub violations: Seq<ViolationView>,
    pub matched: nat,
}

/// The tally after one more outcome is counted in.
pub open spec fn counted(so_far: Tally, outcome: Outcome) -> Tally {
    match outcome {
        Outcome::Matched { rule, violation: Some(violation) } => Tally {
            violations: so_far.violations.push(violation),
            matched: so_far.matched + 1,
        },
        Outcome::Matched { rule, violation: None } => Tally {
            violations: so_far.violations,
            matched: so_far.matched + 1,
        },
        _ => so_far,
    }
}

/// What the policy says of a list of changed files, taken in order: the
/// violations and the number of files to which a rule applied, or the first
/// failure.
pub open spec fn tally(rules: Seq<RuleView>, files: Seq<(Seq<char>, FileChangeView)>) -> Result<
    Tally,
    Failure,
>
    decreases files.len(),
{
    if files.len() == 0 {
        Ok(Tally { violations: Seq::empty(), matched: 0 })
    } else {
        match tally(rules, files.drop_last()) {
            Err(failure) => Err(failure),
            Ok(so_far) => match file_outcome(rules, files.last().0, files.last().1) {
                Err(failure) => Err(failure),
                Ok(outcome) => Ok(counted(so_far, outcome)),
            },
        }
    }
}

/// The changes are all allowed exactly when none is unauthorized.
pub proof fn lemma_allowed_iff_none_unauthorized(
    changes: Changes,
    current: Doc,
    patterns: Seq<Seq<char>>,
    when: Option<Seq<Condition>>,
)
    ensures
        all_changes_allowed(changes, current, patterns, when) <==> unauthorized(
            changes,
            current,
            patterns,
            when,
        ).len() == 0,
    decreases changes.len(),
{
    if changes.len() > 0 {
        let shorter = changes.drop_last();
        lemma_allowed_iff_none_unauthorized(shorter, current, patterns, when);
        if all_changes_allowed(changes, current, patterns, when) {
            assert forall|i: int| 0 <= i < shorter.len() implies change_allowed(
                (#[trigger] shorter[i]).0,
                current,
                patterns,
                when,
            ) by {
                assert(shorter[i] == changes[i]);
            }
            assert(change_allowed(changes[changes.len() - 1].0, current, patterns, when));
        }
        if unauthorized(changes, current, patterns, when).len() == 0 {
            assert forall|i: int| 0 <= i < changes.len() implies change_allowed(
                (#[trigger] changes[i]).0,
                current,
                patterns,
                when,
            ) by {
                if i < shorter.len() {
                    assert(shorter[i] == changes[i]);
                }
            }
        }
    }
}

/// The content of a violation that may be absent.
pub open spec fn violation_content(violation: Option<Violation>) -> Option<ViolationView> {
    match violation {
        Some(v) => Some(v@),
        None => None,
    }
}

/// The policy engine: a well-formed policy, ready to be held against changed
/// files.
pub struct Validator {
    config: Config,
}

impl Validator {
    #[verifier::type_invariant]
    spec fn policy_is_well_formed(self) -> bool {
        rules_well_formed(rules_of(self.config.rules@))
    }

    /// The rules of the policy, in order.
    pub closed spec fn rules(&self) -> Seq<RuleView> {
        rules_of(self.config.rules@)
    }

    /// An engine for the policy `config`, which is well-formed.
    pub fn new(config: Config) -> (validator: Self)
        requires
            rules_well_formed(rules_of(config.rules@)),
        ensures
            validator.rules() == rules_of(config.rules@),
    {
        Self { config }
    }

    /// An engine for the policy `config`, or nothing where the policy is not
    /// well-formed: where the value of one of its conditions nests too deep
    /// or holds a number that is not in plain form.
    pub fn checked(config: Config) -> (validator: Option<Self>)
        ensures
            match validator {
                Some(v) => rules_well_formed(rules_of(config.rules@)) && v.rules() == rules_of(
                    config.rules@,
                ),
                None => !rules_well_formed(rules_of(config.rules@)),
            },
    {
        if config.is_well_formed() {
            Some(Self::new(config))
        } else {
            None
        }
    }

    /// Holds every changed file of `git_diff` against the policy.
    ///
    /// A file counts as matched where a rule applies to the document that
    /// it holds, and only the first such rule is asked. The files are taken
    /// in the order of the diff, and the first failure ends the validation.
    pub fn validate(&self, git_diff: &GitDiff) -> (result: Result<
        ValidationResult,
        ValidationError,
    >)
        ensures
            match result {
                Ok(found) => {
                    &&& tally(self.rules(), files_of(git_diff.changed_files.pairs())) == Ok::<
                        Tally,
                        Failure,
                    >(
                        Tally {
                            violations: violations_of(found.violations@),
                            matched: found.files_matched as nat,
                        },
                    )
                    &&& found.files_processed == git_diff.changed_files.pairs().len()
                    &&& found.is_valid == (found.violations@.len() == 0)
                    &&& found.violations@.len() <= found.files_matched <= found.files_processed
                },
                Err(error) => tally(self.rules(), files_of(git_diff.changed_files.pairs()))
                    == Err::<Tally, Failure>(error@),
            },
    {
        let mut violations: Vec<Violation> = Vec::new();
        let mut files_matched: usize = 0;
        let ghost files = files_of(git_diff.changed_files.pairs());
        proof {
            lemma_tally_bounds(self.rules(), files);
        }
        let count = git_diff.changed_files.len();
        let mut i: usize = 0;
        assert(violations_of(violations@) =~= Seq::<ViolationView>::empty());
        while i < count
            invariant
                i <= count,
                count == git_diff.changed_files.pairs().len(),
                files == files_of(git_diff.changed_files.pairs()),
                files_matched <= i,
                tally(self.rules(), files.take(i as int)) == Ok::<Tally, Failure>(
                    Tally {
                        violations: violations_of(violations@),
                        matched: files_matched as nat,
                    },
                ),
            decreases count - i,
        {
            let file_path = git_diff.changed_files.key_at(i);
            let file_change = git_diff.changed_files.value_at(i);
            let ghost read = files.take(i + 1);
            assert(read.drop_last() == files.take(i as int));
            let ghost before = violations_of(violations@);
            match self.check_file(file_path.as_str(), file_change) {
                Err(error) => {
                    proof {
                        lemma_failure_stays(self.rules(), files, i + 1);
                    }
                    return Err(error);
                },
                Ok(FileOutcome::Matched { rule, violation: Some(violation) }) => {
                    files_matched = files_matched + 1;
                    violations.push(violation);
                    assert(violations_of(violations@) =~= before.push(violation@));
                },
                Ok(FileOutcome::Matched { rule, violation: None }) => {
                    files_matched = files_matched + 1;
                },
                Ok(_) => {},
            }
            i = i + 1;
        }
        assert(files.take(files.len() as int) == files);
        Ok(
            ValidationResult {
                is_valid: violations.len() == 0,
                violations,
                files_processed: count,
                files_matched,
            },
        )
    }

    /// What the policy says of one changed file: whether it is passed over,
    /// which rule applies to it, and what that rule finds.
    pub fn check_file(&self, file_path: &str, file_change: &FileChange) -> (result: Result<
        FileOutcome,
        ValidationError,
    >)
        ensures
            match result {
                Ok(outcome) => file_outcome(self.rules(), file_path@, file_change@) == Ok::<
                    Outcome,
                    Failure,
                >(outcome@),
                Err(error) => file_outcome(self.rules(), file_path@, file_change@) == Err::<
                    Outcome,
                    Failure,
                >(error@),
            },
    {
        proof {
            use_type_invariant(self);
        }
        let content = match file_change.change_type {
            ChangeType::Deleted => &file_change.base_content,
            _ => &file_change.current_content,
        };
        let json_for_rule_matching = match content {
            Some(text) => match Self::parse_yaml_or_json(text.as_str()) {
                Ok(json) => json,
                Err(_) => {
                    return Ok(FileOutcome::Skipped(SkipReason::NotADocument));
                },
            },
            None => {
                return Ok(FileOutcome::Skipped(SkipReason::NoContent));
            },
        };
        let ghost doc = json_for_rule_matching@;
        let ghost rules = self.rules();
        let mut i: usize = 0;
        while i < self.config.rules.len()
            invariant
                i <= self.config.rules.len(),
                rules == rules_of(self.config.rules@),
                rules == self.rules(),
                rules_well_formed(rules),
                doc == json_for_rule_matching@,
                well_formed(doc),
                matching_content(file_change@) matches Some(content) && parsed(content) == Ok::<
                    Doc,
                    ParseFailure,
                >(doc),
                forall|j: int| 0 <= j < i ==> !rule_applies(doc, #[trigger] rules[j]),
            decreases self.config.rules.len() - i,
        {
            let rule = &self.config.rules[i];
            assert(rules[i as int] == rule@);
            if Self::file_matches_rule(&json_for_rule_matching, rule) {
                assert(is_first_applying(doc, rules, i as int));
                return match Self::validate_file_against_rule(file_path, file_change, rule) {
                    Ok(violation) => Ok(FileOutcome::Matched { rule: i, violation }),
                    Err(error) => Err(error),
                };
            }
            i = i + 1;
        }
        Ok(FileOutcome::Unmatched)
    }

    /// What `rule`, which applies to the file, says of its change.
    pub fn validate_file_against_rule(
        file_path: &str,
        file_change: &FileChange,
        rule: &Rule,
    ) -> (result: Result<Option<Violation>, ValidationError>)
        requires
            rule@.well_formed(),
        ensures
            match result {
                Ok(verdict) => file_verdict(file_path@, file_change@, rule@) == Ok::<
                    Option<ViolationView>,
                    Failure,
                >(violation_content(verdict)),
                Err(error) => file_verdict(file_path@, file_change@, rule@) == Err::<
                    Option<ViolationView>,
                    Failure,
                >(error@),
            },
    {
        match file_change.change_type {
            ChangeType::Added => {
                return Ok(None);
            },
            ChangeType::Deleted => {
                let mut rule_description = String::from_str("Rule matching ");
                rule_description.append(
                    Self::describe_conditions(&rule.match_conditions).as_str(),
                );
                rule_description.append(" prohibits deletion of files");
                let mut unauthorized_changes: Vec<String> = Vec::new();
                unauthorized_changes.push(String::from_str("File deletion"));
                assert(strings_of(unauthorized_changes@) =~= seq!["File deletion"@]);
                return Ok(
                    Some(
                        Violation {
                            file_path: String::from_str(file_path),
                            rule_description,
                            unauthorized_changes,
                        },
                    ),
                );
            },
            ChangeType::Modified => {},
        }
        let base_content = match &file_change.base_content {
            Some(content) => content,
            None => {
                return Ok(None);
            },
        };
        let base_json = match Self::parse_yaml_or_json(base_content.as_str()) {
            Ok(json) => json,
            Err(cause) => {
                return Err(
                    ValidationError::UnparsableBase {
                        file_path: String::from_str(file_path),
                        cause,
                    },
                );
            },
        };
        let current_json = match &file_change.current_content {
            Some(content) => match Self::parse_yaml_or_json(content.as_str()) {
                Ok(json) => json,
                Err(cause) => {
                    return Err(
                        ValidationError::UnparsableCurrent {
                            file_path: String::from_str(file_path),
                            cause,
                        },
                    );
                },
            },
            None => {
                return Err(
                    ValidationError::MissingCurrent { file_path: String::from_str(file_path) },
                );
            },
        };
        let when_conditions: Option<&[PathValue]> = match &rule.when_conditions {
            Some(conditions) => Some(conditions.as_slice()),
            None => None,
        };
        proof {
            lemma_allowed_iff_none_unauthorized(
                changes_of(json_diff(base_json@, current_json@), base_json@),
                current_json@,
                rule@.allowed_changes,
                rule@.when_conditions,
            );
        }
        let changes_allowed = JsonPathMatcher::has_allowed_changes_only(
            &base_json,
            &current_json,
            rule.allowed_changes.as_slice(),
            when_conditions,
        );
        if !changes_allowed {
            let unauthorized_changes = Self::find_unauthorized_changes(
                &base_json,
                &current_json,
                rule.allowed_changes.as_slice(),
                when_conditions,
            );
            let mut rule_description = String::from_str("Rule matching ");
            rule_description.append(Self::describe_conditions(&rule.match_conditions).as_str());
            rule_description.append(" allows only changes to: ");
            rule_description.append(debug_list(&rule.allowed_changes).as_str());
            return Ok(
                Some(
                    Violation {
                        file_path: String::from_str(file_path),
                        rule_description,
                        unauthorized_changes,
                    },
                ),
            );
        }
        Ok(None)
    }

    /// The conditions of a rule in words.
    fn describe_conditions(conditions: &Vec<PathValue>) -> (text: String)
        requires
            conditions_well_formed(conditions_of(conditions@)),
        ensures
            text@ == conditions_text(conditions_of(conditions@)),
    {
        let mut described: Vec<String> = Vec::new();
        let mut i: usize = 0;
        let ghost wanted = conditions_of(conditions@).map_values(|c: Condition| condition_text(c));
        while i < conditions.len()
            invariant
                i <= conditions.len(),
                conditions_well_formed(conditions_of(conditions@)),
                wanted == conditions_of(conditions@).map_values(|c: Condition| condition_text(c)),
                strings_of(described@) == wanted.take(i as int),
            decreases conditions.len() - i,
        {
            assert(conditions_of(conditions@)[i as int] == conditions@[i as int]@);
            let mut text = conditions[i].path.clone();
            text.append("=");
            text.append(render_json(&conditions[i].value.duplicate()).as_str());
            described.push(text);
            assert(wanted.take(i + 1) =~= wanted.take(i as int).push(wanted[i as int]));
            i = i + 1;
        }
        assert(wanted.take(wanted.len() as int) == wanted);
        debug_list(&described)
    }

    /// The changes between two documents that a rule does not allow.
    fn find_unauthorized_changes(
        base_json: &Document,
        current_json: &Document,
        allowed_patterns: &[String],
        when_conditions: Option<&[PathValue]>,
    ) -> (found: Vec<String>)
        requires
            well_formed(base_json@),
            well_formed(current_json@),
            when_conditions matches Some(conditions) ==> conditions_well_formed(
                conditions_of(conditions@),
            ),
        ensures
            strings_of(found@) == unauthorized(
                changes_of(json_diff(base_json@, current_json@), base_json@),
                current_json@,
                strings_of(allowed_patterns@),
                when_of(when_conditions),
            ),
    {
        let all_changes = JsonPathMatcher::get_all_changes(base_json, current_json);
        let mut found: Vec<String> = Vec::new();
        let ghost records = records_of(all_changes.pairs());
        let mut i: usize = 0;
        while i < all_changes.len()
            invariant
                i <= all_changes.pairs().len(),
                records == records_of(all_changes.pairs()),
                well_formed(current_json@),
                when_conditions matches Some(conditions) ==> conditions_well_formed(
                    conditions_of(conditions@),
                ),
                strings_of(found@) == unauthorized(
                    records.take(i as int),
                    current_json@,
                    strings_of(allowed_patterns@),
                    when_of(when_conditions),
                ),
            decreases all_changes.pairs().len() - i,
        {
            let change_path = all_changes.key_at(i);
            let ghost read = records.take(i + 1);
            assert(read.drop_last() == records.take(i as int));
            if !JsonPathMatcher::path_matches_any_pattern(change_path.as_str(), allowed_patterns) {
                found.push(change_path.clone());
            } else {
                match when_conditions {
                    Some(conditions) => {
                        if !JsonPathMatcher::when_conditions_met(
                            current_json,
                            change_path.as_str(),
                            conditions,
                        ) {
                            let marked = change_path.clone().concat(" (when condition not met)");
                            found.push(marked);
                        }
                    },
                    None => {},
                }
            }
            i = i + 1;
        }
        assert(records.take(records.len() as int) == records);
        found
    }

    /// Whether `rule` applies to `json`: all its match conditions hold.
    pub fn file_matches_rule(json: &Document, rule: &Rule) -> (applies: bool)
        requires
            well_formed(json@),
            rule@.well_formed(),
        ensures
            applies == rule_applies(json@, rule@),
    {
        JsonPathMatcher::matches_conditions(json, rule.match_conditions.as_slice())
    }

    /// Reads a content as a document: as JSON or, where it is no JSON, as
    /// YAML. A negative zero is written as zero. What is read must nest no
    /// deeper than [`MAX_DEPTH`] and hold numbers in plain form only, as the
    /// parsers hand them out; anything else is refused.
    pub fn parse_yaml_or_json(content: &str) -> (result: Result<Document, ParseError>)
        ensures
            match result {
                Ok(doc) => parsed(content@) == Ok::<Doc, ParseFailure>(doc@) && well_formed(doc@),
                Err(error) => parsed(content@) == Err::<Doc, ParseFailure>(error@),
            },
    {
        let read = match parse_json(content) {
            Some(json) => json,
            None => match parse_yaml(content) {
                Ok(json) => json,
                Err(cause) => {
                    return Err(ParseError { cause });
                },
            },
        };
        match read.accept() {
            Some(plain) => Ok(plain),
            None => Err(
                ParseError {
                    cause: String::from_str(
                        "the document nests too deep or holds a number that is not in plain form",
                    ),
                },
            ),
        }
    }
}

/// A rule applies to no more files than there are, and no more files break
/// their rule than a rule applies to: each file counts once at most, and
/// gives one violation at most.
pub proof fn lemma_tally_bounds(rules: Seq<RuleView>, files: Seq<(Seq<char>, FileChangeView)>)
    ensures
        tally(rules, files) matches Ok(found) ==> found.violations.len() <= found.matched
            <= files.len(),
    decreases files.len(),
{
    if files.len() > 0 {
        lemma_tally_bounds(rules, files.drop_last());
    }
}

/// Once a prefix of the files fails, every longer list fails in the same way.
pub proof fn lemma_failure_stays(
    rules: Seq<RuleView>,
    files: Seq<(Seq<char>, FileChangeView)>,
    n: int,
)
    requires
        0 <= n <= files.len(),
        tally(rules, files.take(n)) is Err,
    ensures
        tally(rules, files) == tally(rules, files.take(n)),
    decreases files.len() - n,
{
    if n < files.len() {
        assert(files.take(n + 1).drop_last() == files.take(n));
        lemma_failure_stays(rules, files, n + 1);
    } else {
        assert(files.take(n) == files);
    }
}

} // verus!
