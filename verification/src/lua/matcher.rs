//! What a line is matched against: aliases and triggers.

use crate::line::{Line, LineView};
use crate::text::texts;
use regex::Regex;
use vstd::prelude::*;

verus! {

/// A compiled regular expression: the outside type `regex::Regex`.
#[verifier::external_type_specification]
#[verifier::external_body]
pub struct ExRegex(Regex);

/// The pattern that a regular expression was compiled from.
pub uninterp spec fn regex_pattern(regex: Regex) -> Seq<char>;

/// What `Regex::new` says against a pattern, if anything.
pub uninterp spec fn regex_error(pattern: Seq<char>) -> Option<Seq<char>>;

/// What `Regex::captures` finds for a pattern in a text: nothing, or the text of
/// each group, with nothing for a group that took no part in the match.
pub uninterp spec fn regex_captures(
    pattern: Seq<char>,
    text: Seq<char>,
) -> Option<Seq<Option<Seq<char>>>>;

/// The text of a group, if it has one.
pub open spec fn group_view(group: Option<String>) -> Option<Seq<char>> {
    match group {
        Some(text) => Some(text@),
        None => None,
    }
}

/// Wraps `Regex::new`: compiles a pattern, or says what is wrong with it. Which
/// of the two depends on the pattern alone.
#[verifier::external_body]
fn compile(pattern: &str) -> (res: Result<Regex, String>)
    ensures
        match res {
            Ok(regex) => regex_error(pattern@) is None && regex_pattern(regex) == pattern@,
            Err(message) => regex_error(pattern@) == Some(message@),
        },
{
    Regex::new(pattern).map_err(|error| error.to_string())
}

/// Wraps `Regex::captures` for a regular expression that `Regex::new` has made.
/// What is found depends on the pattern and the text alone. The first group is
/// the whole match, which always has a text.
#[verifier::external_body]
fn find_captures(regex: &Regex, text: &str) -> (res: Option<Vec<Option<String>>>)
    ensures
        optional_groups(res) == regex_captures(regex_pattern(*regex), text@),
        res matches Some(groups) ==> groups@.len() >= 1 && groups@[0] is Some,
{
    regex.captures(text).map(
        |captures| captures.iter().map(|group| group.map(|m| m.as_str().to_string())).collect(),
    )
}

/// `Regex::clone` gives a regular expression for the same pattern.
pub assume_specification[ <Regex as Clone>::clone ](regex: &Regex) -> (copy: Regex)
    ensures
        regex_pattern(copy) == regex_pattern(*regex),
;

/// The texts that a callback gets for the groups of a match: an empty text stands
/// for a group that took no part in it.
pub open spec fn capture_texts(groups: Seq<Option<Seq<char>>>) -> Seq<Seq<char>> {
    groups.map_values(
        |group: Option<Seq<char>>|
            match group {
                Some(text) => text,
                None => Seq::<char>::empty(),
            },
    )
}

/// The texts of the groups of a match.
pub fn texts_of_groups(groups: Vec<Option<String>>) -> (captures: Vec<String>)
    ensures
        texts(captures@) == capture_texts(
            groups@.map_values(|group: Option<String>| group_view(group)),
        ),
        captures@.len() == groups@.len(),
        forall|i: int|
            0 <= i < groups@.len() ==> (#[trigger] captures@[i])@ == match groups@[i] {
                Some(text) => text@,
                None => Seq::<char>::empty(),
            },
{
    let ghost views = groups@.map_values(|group: Option<String>| group_view(group));
    let mut captures: Vec<String> = Vec::new();
    for group in it: groups
        invariant
            it.seq() == groups@,
            views == groups@.map_values(|group: Option<String>| group_view(group)),
            texts(captures@) == capture_texts(views).take(it.index()),
    {
        let ghost at = it.index();
        let ghost before = texts(captures@);
        let text = match group {
            Some(text) => text,
            None => String::new(),
        };
        captures.push(text);
        assert(views[at] == group_view(group));
        assert(text@ =~= capture_texts(views)[at]);
        assert(texts(captures@) =~= before.push(text@));
        assert(capture_texts(views).take(at + 1) =~= before.push(text@));
    }
    assert(capture_texts(views).take(groups@.len() as int) =~= capture_texts(views));
    proof {
        assert(texts(captures@).len() == captures@.len());
        assert forall|i: int| 0 <= i < groups@.len() implies (#[trigger] captures@[i])@
            == match groups@[i] {
            Some(text) => text@,
            None => Seq::<char>::empty(),
        } by {
            assert(texts(captures@)[i] == captures@[i]@);
            assert(views[i] == group_view(groups@[i]));
        }
    }
    captures
}

/// What a match of `pattern` in `text` hands to a callback.
pub open spec fn pattern_captures(pattern: Seq<char>, text: Seq<char>) -> Option<Seq<Seq<char>>> {
    match regex_captures(pattern, text) {
        Some(groups) => Some(capture_texts(groups)),
        None => None,
    }
}

/// What is found of each group, if there is a match.
pub open spec fn optional_groups(groups: Option<Vec<Option<String>>>) -> Option<
    Seq<Option<Seq<char>>>,
> {
    match groups {
        Some(groups) => Some(groups@.map_values(|group: Option<String>| group_view(group))),
        None => None,
    }
}

/// What is said of groups is said of each, in order: its text, or that it has none.
pub proof fn law_groups_are_as_found(groups: Option<Vec<Option<String>>>)
    ensures
        optional_groups(groups) is Some <==> groups is Some,
        groups matches Some(found) ==> {
            &&& optional_groups(groups)->0.len() == found@.len()
            &&& forall|i: int|
                0 <= i < found@.len() ==> #[trigger] optional_groups(groups)->0[i]
                    == match found@[i] {
                    Some(text) => Some(text@),
                    None => None,
                }
        },
{
}

/// What is said of strings is said of each, in order.
pub proof fn law_captures_are_as_given(captures: Option<Vec<String>>)
    ensures
        optional_texts(captures) is Some <==> captures is Some,
        captures matches Some(given) ==> {
            &&& optional_texts(captures)->0.len() == given@.len()
            &&& forall|i: int|
                0 <= i < given@.len() ==> #[trigger] optional_texts(captures)->0[i] == given@[i]@
        },
{
}

/// A callback gets one text for every group of a match, in order: the text of the group
/// if it took part in the match, and an empty one only if it did not.
pub proof fn law_callback_gets_every_group(groups: Seq<Option<Seq<char>>>)
    ensures
        capture_texts(groups).len() == groups.len(),
        forall|i: int|
            0 <= i < groups.len() ==> #[trigger] capture_texts(groups)[i] == match groups[i] {
                Some(text) => text,
                None => Seq::<char>::empty(),
            },
{
}

/// An alias is called exactly if it is enabled and its pattern matches in what the user
/// typed, all of it without escape sequences, and its callback gets the groups of that
/// match.
pub proof fn law_alias_is_held_against_the_line(alias: AliasView, line: LineView)
    ensures
        !alias.enabled ==> alias.captures(line) is None,
        alias.enabled ==> match regex_captures(alias.pattern, line.clean_line) {
            Some(groups) => {
                &&& alias.captures(line) matches Some(captures)
                &&& captures.len() == groups.len()
                &&& forall|i: int|
                    0 <= i < groups.len() ==> #[trigger] captures[i] == match groups[i] {
                        Some(text) => text,
                        None => Seq::<char>::empty(),
                    }
            },
            None => alias.captures(line) is None,
        },
{
    if let Some(groups) = regex_captures(alias.pattern, line.clean_line) {
        law_callback_gets_every_group(groups);
    }
}

/// A trigger is called exactly if it is enabled and its pattern matches in the line, all
/// of it, with escape sequences if the trigger is raw and without them if not, and its
/// callback gets the groups of that match.
pub proof fn law_trigger_is_held_against_the_line(trigger: TriggerView, line: LineView)
    ensures
        !trigger.enabled ==> trigger.captures(line) is None,
        trigger.enabled ==> match regex_captures(
            trigger.pattern,
            if trigger.raw {
                line.line
            } else {
                line.clean_line
            },
        ) {
            Some(groups) => {
                &&& trigger.captures(line) matches Some(captures)
                &&& captures.len() == groups.len()
                &&& forall|i: int|
                    0 <= i < groups.len() ==> #[trigger] captures[i] == match groups[i] {
                        Some(text) => text,
                        None => Seq::<char>::empty(),
                    }
            },
            None => trigger.captures(line) is None,
        },
{
    let input = if trigger.raw {
        line.line
    } else {
        line.clean_line
    };
    if let Some(groups) = regex_captures(trigger.pattern, input) {
        law_callback_gets_every_group(groups);
    }
}

/// The contents of the strings, if there are any strings.
pub open spec fn optional_texts(captures: Option<Vec<String>>) -> Option<Seq<Seq<char>>> {
    match captures {
        Some(captures) => Some(texts(captures@)),
        None => None,
    }
}

/// What a callback gets for the groups of a match, if it is enabled and there is a
/// match.
pub fn captures_if_enabled(enabled: bool, groups: Option<Vec<Option<String>>>) -> (res: Option<
    Vec<String>,
>)
    ensures
        optional_texts(res) == match optional_groups(groups) {
            Some(views) if enabled => Some(capture_texts(views)),
            _ => None,
        },
        res is Some <==> enabled && groups is Some,
        res matches Some(captures) ==> {
            &&& captures@.len() == groups->0@.len()
            &&& forall|i: int|
                0 <= i < captures@.len() ==> (#[trigger] captures@[i])@ == match groups->0@[i] {
                    Some(text) => text@,
                    None => Seq::<char>::empty(),
                }
        },
{
    match groups {
        Some(groups) => {
            if enabled {
                let captures = texts_of_groups(groups);
                assert(texts(captures@).len() == captures@.len());
                Some(captures)
            } else {
                None
            }
        },
        None => None,
    }
}

/// A pattern for what the user types.
pub struct Alias {
    regex: Regex,
    enabled: bool,
}

pub ghost struct AliasView {
    pub pattern: Seq<char>,
    pub enabled: bool,
}

impl View for Alias {
    type V = AliasView;

    closed spec fn view(&self) -> AliasView {
        AliasView { pattern: regex_pattern(self.regex), enabled: self.enabled }
    }
}

impl Clone for Alias {
    fn clone(&self) -> (copy: Alias)
        ensures
            copy@ == self@,
    {
        Alias { regex: self.regex.clone(), enabled: self.enabled }
    }
}

impl AliasView {
    /// What the callback of the alias gets for what the user typed, if it is to
    /// be called at all.
    pub open spec fn captures(self, line: LineView) -> Option<Seq<Seq<char>>> {
        if self.enabled {
            pattern_captures(self.pattern, line.clean_line)
        } else {
            None
        }
    }
}

impl Alias {
    /// An enabled alias for a pattern, or what is wrong with the pattern.
    pub fn create(pattern: &str) -> (res: Result<Alias, String>)
        ensures
            match res {
                Ok(alias) => regex_error(pattern@) is None && alias@ == (AliasView {
                    pattern: pattern@,
                    enabled: true,
                }),
                Err(message) => regex_error(pattern@) == Some(message@),
            },
    {
        match compile(pattern) {
            Ok(regex) => Ok(Alias { regex, enabled: true }),
            Err(message) => Err(message),
        }
    }

    /// Turns the alias on or off.
    pub fn enable(&mut self, enabled: bool)
        ensures
            final(self)@ == (AliasView { enabled, ..old(self)@ }),
    {
        self.enabled = enabled;
    }

    /// What the callback of the alias gets for what the user typed, if it is to
    /// be called at all.
    pub fn captures(&self, input: &Line) -> (res: Option<Vec<String>>)
        ensures
            optional_texts(res) == self@.captures(input@),
            res matches Some(captures) ==> captures@.len() >= 1,
            !self@.enabled ==> res is None,
            self@.enabled ==> match regex_captures(self@.pattern, input@.clean_line) {
                Some(groups) => {
                    &&& res matches Some(captures)
                    &&& captures@.len() == groups.len()
                    &&& forall|i: int|
                        0 <= i < groups.len() ==> (#[trigger] captures@[i])@ == match groups[i] {
                            Some(text) => text,
                            None => Seq::<char>::empty(),
                        }
                },
                None => res is None,
            },
    {
        let groups = find_captures(&self.regex, input.clean_line());
        proof {
            law_groups_are_as_found(groups);
        }
        captures_if_enabled(self.enabled, groups)
    }
}

/// A pattern for what the server sends.
pub struct Trigger {
    regex: Regex,
    gag: bool,
    raw: bool,
    enabled: bool,
}

pub ghost struct TriggerView {
    pub pattern: Seq<char>,
    /// Lines that match are not shown.
    pub gag: bool,
    /// The pattern is for the line with its escape sequences.
    pub raw: bool,
    pub enabled: bool,
}

impl View for Trigger {
    type V = TriggerView;

    closed spec fn view(&self) -> TriggerView {
        TriggerView {
            pattern: regex_pattern(self.regex),
            gag: self.gag,
            raw: self.raw,
            enabled: self.enabled,
        }
    }
}

impl Clone for Trigger {
    fn clone(&self) -> (copy: Trigger)
        ensures
            copy@ == self@,
    {
        Trigger {
            regex: self.regex.clone(),
            gag: self.gag,
            raw: self.raw,
            enabled: self.enabled,
        }
    }
}

impl TriggerView {
    /// The text that the pattern is for.
    pub open spec fn input(self, line: LineView) -> Seq<char> {
        if self.raw {
            line.line
        } else {
            line.clean_line
        }
    }

    /// What the callback of the trigger gets for a line, if it is to be called at
    /// all.
    pub open spec fn captures(self, line: LineView) -> Option<Seq<Seq<char>>> {
        if self.enabled {
            pattern_captures(self.pattern, self.input(line))
        } else {
            None
        }
    }
}

impl Trigger {
    /// An enabled trigger for a pattern, or what is wrong with the pattern.
    pub fn create(pattern: &str, gag: bool, raw: bool) -> (res: Result<Trigger, String>)
        ensures
            match res {
                Ok(trigger) => regex_error(pattern@) is None && trigger@ == (TriggerView {
                    pattern: pattern@,
                    gag,
                    raw,
                    enabled: true,
                }),
                Err(message) => regex_error(pattern@) == Some(message@),
            },
    {
        match compile(pattern) {
            Ok(regex) => Ok(Trigger { regex, gag, raw, enabled: true }),
            Err(message) => Err(message),
        }
    }

    /// Turns the trigger on or off.
    pub fn enable(&mut self, enabled: bool)
        ensures
            final(self)@ == (TriggerView { enabled, ..old(self)@ }),
    {
        self.enabled = enabled;
    }

    /// Whether lines that match are not shown.
    pub fn gags(&self) -> (res: bool)
        ensures
            res == self@.gag,
    {
        self.gag
    }

    /// What the callback of the trigger gets for a line, if it is to be called at
    /// all.
    pub fn captures(&self, line: &Line) -> (res: Option<Vec<String>>)
        ensures
            optional_texts(res) == self@.captures(line@),
            res matches Some(captures) ==> captures@.len() >= 1,
            !self@.enabled ==> res is None,
            self@.enabled ==> match regex_captures(
                self@.pattern,
                if self@.raw {
                    line@.line
                } else {
                    line@.clean_line
                },
            ) {
                Some(groups) => {
                    &&& res matches Some(captures)
                    &&& captures@.len() == groups.len()
                    &&& forall|i: int|
                        0 <= i < groups.len() ==> (#[trigger] captures@[i])@ == match groups[i] {
                            Some(text) => text,
                            None => Seq::<char>::empty(),
                        }
                },
                None => res is None,
            },
    {
        let groups = if self.raw {
            find_captures(&self.regex, line.line())
        } else {
            find_captures(&self.regex, line.clean_line())
        };
        proof {
            law_groups_are_as_found(groups);
        }
        captures_if_enabled(self.enabled, groups)
    }
}

} // verus!
