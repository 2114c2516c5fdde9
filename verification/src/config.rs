//! The configuration: the watched folder, the organisation mode and the
//! ordered rules, with the rule engine that picks a destination for a file.

use vstd::prelude::*;
use vstd::string::StringExecFns;
use std::collections::HashMap;
use std::path::PathBuf;
use std::time::{Duration, SystemTime, SystemTimeError};
use crate::organizer::{chars_of, extension_of, split_name};
use crate::pattern::{file_type_accepts, file_type_matches, name_accepts, name_matches};
use crate::text::{lowercase, lowercase_of, same_text};

verus! {

/// `std::path::PathBuf`, carried through untouched.
#[verifier::external_type_specification]
#[verifier::external_body]
pub struct ExPathBuf(PathBuf);

/// `std::time::SystemTime`, carried through untouched.
#[verifier::external_type_specification]
#[verifier::external_body]
pub struct ExSystemTime(SystemTime);

/// `std::time::SystemTimeError`, carried through untouched.
#[verifier::external_type_specification]
#[verifier::external_body]
pub struct ExSystemTimeError(SystemTimeError);

/// What a rule asks of a file.
#[derive(Debug, Clone, PartialEq)]
pub enum RuleCondition {
    /// The extension equals `value` regardless of case; `*` accepts every file.
    FileType { value: String },
    /// The file name matches `pattern`, in which `*` stands for any run of
    /// characters; a pattern without `*` is looked for as a substring.
    Name { pattern: String },
    /// A test on the creation date. It accepts no file.
    CreatedDate { operator: String, value: String },
}

/// A `RuleCondition` with its texts as sequences of characters.
pub enum ConditionView {
    FileType { value: Seq<char> },
    Name { pattern: Seq<char> },
    CreatedDate { operator: Seq<char>, value: Seq<char> },
}

impl View for RuleCondition {
    type V = ConditionView;

    open spec fn view(&self) -> ConditionView {
        match *self {
            RuleCondition::FileType { value } => ConditionView::FileType { value: value@ },
            RuleCondition::Name { pattern } => ConditionView::Name { pattern: pattern@ },
            RuleCondition::CreatedDate { operator, value } => ConditionView::CreatedDate {
                operator: operator@,
                value: value@,
            },
        }
    }
}

/// One rule: files that meet `condition` belong in `destination`.
#[derive(Debug, Clone, PartialEq)]
pub struct Rule {
    pub name: Option<String>,
    pub condition: RuleCondition,
    pub destination: String,
}

/// A `Rule` with its texts as sequences of characters.
pub struct RuleView {
    pub name: Option<Seq<char>>,
    pub condition: ConditionView,
    pub destination: Seq<char>,
}

impl View for Rule {
    type V = RuleView;

    open spec fn view(&self) -> RuleView {
        RuleView {
            name: match self.name {
                Some(label) => Some(label@),
                None => None,
            },
            condition: self.condition@,
            destination: self.destination@,
        }
    }
}

/// Whether a condition accepts a file with this extension and name.
pub open spec fn condition_matches(
    condition: ConditionView,
    extension: Seq<char>,
    file_name: Seq<char>,
) -> bool {
    match condition {
        ConditionView::FileType { value } => file_type_matches(value, extension),
        ConditionView::Name { pattern } => name_matches(pattern, file_name),
        ConditionView::CreatedDate { .. } => false,
    }
}

/// Whether a rule decides where the file goes: its condition accepts the file
/// and it names a destination.
pub open spec fn rule_selects(rule: RuleView, extension: Seq<char>, file_name: Seq<char>) -> bool {
    condition_matches(rule.condition, extension, file_name) && rule.destination.len() > 0
}

/// Rule `index` is the first in `rules` that decides where the file goes.
pub open spec fn is_first_selecting(
    rules: Seq<Rule>,
    extension: Seq<char>,
    file_name: Seq<char>,
    index: int,
) -> bool {
    &&& 0 <= index < rules.len()
    &&& rule_selects(rules[index]@, extension, file_name)
    &&& forall|earlier: int|
        0 <= earlier < index ==> !rule_selects(#[trigger] rules[earlier]@, extension, file_name)
}

/// The destination that the rules give a file: that of the first rule that
/// decides, and none where no rule does.
pub open spec fn destination_for(rules: Seq<Rule>, extension: Seq<char>, file_name: Seq<char>)
    -> Option<Seq<char>> {
    if exists|index: int| is_first_selecting(rules, extension, file_name, index) {
        let index = choose|index: int| is_first_selecting(rules, extension, file_name, index);
        Some(rules[index].destination@)
    } else {
        None
    }
}

/// The characters of an optional text.
pub open spec fn text_of(text: Option<String>) -> Option<Seq<char>> {
    match text {
        Some(t) => Some(t@),
        None => None,
    }
}

/// The extension by which the rules know a file: that of its name in lower
/// case, or `other` for a file without one.
pub open spec fn rule_extension(file_name: Option<Seq<char>>) -> Seq<char> {
    match file_name {
        Some(name) => match extension_of(name) {
            Some(extension) => lowercase_of(extension),
            None => "other"@,
        },
        None => "other"@,
    }
}

/// The name by which the rules know a file: its own, or the empty name for a
/// path that ends in none.
pub open spec fn rule_file_name(file_name: Option<Seq<char>>) -> Seq<char> {
    match file_name {
        Some(name) => name,
        None => Seq::empty(),
    }
}

/// The destination that the rules give a file of this name.
pub open spec fn destination_for_file(rules: Seq<Rule>, file_name: Option<Seq<char>>) -> Option<
    Seq<char>,
> {
    destination_for(rules, rule_extension(file_name), rule_file_name(file_name))
}

/// The extension by which the rules know a file, given the extension of its
/// name already lower-cased.
pub fn extension_or_other(lowered_extension: Option<String>) -> (extension: String)
    ensures
        extension@ == match lowered_extension {
            Some(lowered) => lowered@,
            None => "other"@,
        },
{
    match lowered_extension {
        Some(lowered) => lowered,
        None => String::from_str("other"),
    }
}

/// The extension by which the rules know a file.
pub fn file_extension_for_rules(file_name: Option<&str>) -> (extension: String)
    ensures
        extension@ == rule_extension(chars_of(file_name)),
{
    let lowered = match file_name {
        Some(name) => match split_name(name).extension {
            Some(extension) => Some(lowercase(extension.as_str())),
            None => None,
        },
        None => None,
    };
    extension_or_other(lowered)
}

impl Rule {
    /// Whether this rule's condition accepts a file with this extension and
    /// name.
    pub fn accepts(&self, file_extension: &str, file_name: &str) -> (matched: bool)
        ensures
            matched == condition_matches(self.condition@, file_extension@, file_name@),
    {
        match &self.condition {
            RuleCondition::FileType { value } => file_type_accepts(value.as_str(), file_extension),
            RuleCondition::Name { pattern } => name_accepts(pattern.as_str(), file_name),
            RuleCondition::CreatedDate { .. } => false,
        }
    }

    /// Whether this rule's condition accepts the file. The path and the
    /// creation date do not enter into it.
    pub fn matches(
        &self,
        file_path: &PathBuf,
        file_extension: &str,
        file_name: &str,
        created_date: Option<SystemTime>,
    ) -> (matched: bool)
        ensures
            matched == condition_matches(self.condition@, file_extension@, file_name@),
    {
        self.accepts(file_extension, file_name)
    }
}

/// A file that waits for a manual decision.
#[derive(Debug, PartialEq, Eq)]
pub struct PendingFile {
    pub path: String,
    pub name: String,
    pub extension: String,
    pub size: u64,
    pub detected_at: String,
}

/// A `PendingFile` with its texts as sequences of characters.
pub struct PendingFileView {
    pub path: Seq<char>,
    pub name: Seq<char>,
    pub extension: Seq<char>,
    pub size: u64,
    pub detected_at: Seq<char>,
}

impl View for PendingFile {
    type V = PendingFileView;

    open spec fn view(&self) -> PendingFileView {
        PendingFileView {
            path: self.path@,
            name: self.name@,
            extension: self.extension@,
            size: self.size,
            detected_at: self.detected_at@,
        }
    }
}

/// The entries of a list of pending files, in order.
pub open spec fn pending_views(files: Seq<PendingFile>) -> Seq<PendingFileView> {
    files.map_values(|file: PendingFile| file@)
}

impl Clone for PendingFile {
    fn clone(&self) -> (copy: Self)
        ensures
            copy@ == self@,
    {
        PendingFile {
            path: self.path.clone(),
            name: self.name.clone(),
            extension: self.extension.clone(),
            size: self.size,
            detected_at: self.detected_at.clone(),
        }
    }
}

/// How detected files are handled.
#[derive(Debug, Clone, Copy, PartialEq, Eq, Structural)]
pub enum OrganizationMode {
    /// Every file is placed by the rules.
    Auto,
    /// Every file waits for a manual decision.
    Ask,
    /// Files are placed by the rules; those that no rule places wait.
    Both,
}

impl OrganizationMode {
    /// The word that stands for the mode in a configuration.
    pub open spec fn word(self) -> Seq<char> {
        match self {
            OrganizationMode::Auto => "auto"@,
            OrganizationMode::Ask => "ask"@,
            OrganizationMode::Both => "both"@,
        }
    }

    /// Reads a mode word. Only the three words `auto`, `ask` and `both` are
    /// modes; any other text is none.
    pub fn parse(word: &str) -> (mode: Option<OrganizationMode>)
        ensures
            match mode {
                Some(m) => word@ == m.word(),
                None => word@ != "auto"@ && word@ != "ask"@ && word@ != "both"@,
            },
    {
        if same_text(word, "auto") {
            Some(OrganizationMode::Auto)
        } else if same_text(word, "ask") {
            Some(OrganizationMode::Ask)
        } else if same_text(word, "both") {
            Some(OrganizationMode::Both)
        } else {
            None
        }
    }

    /// The word of this mode.
    pub fn as_str(self) -> (word: &'static str)
        ensures
            word@ == self.word(),
    {
        match self {
            OrganizationMode::Auto => "auto",
            OrganizationMode::Ask => "ask",
            OrganizationMode::Both => "both",
        }
    }
}

/// Whether a text is one of the three mode words.
pub open spec fn is_mode_word(word: Seq<char>) -> bool {
    word == OrganizationMode::Auto.word() || word == OrganizationMode::Ask.word() || word
        == OrganizationMode::Both.word()
}

/// The three mode words are three different words.
pub proof fn lemma_mode_words_differ()
    ensures
        OrganizationMode::Auto.word() != OrganizationMode::Ask.word(),
        OrganizationMode::Auto.word() != OrganizationMode::Both.word(),
        OrganizationMode::Ask.word() != OrganizationMode::Both.word(),
{
    reveal_strlit("auto");
    reveal_strlit("ask");
    reveal_strlit("both");
    assert("auto"@.len() == 4 && "ask"@.len() == 3 && "both"@.len() == 4);
    assert("auto"@[0] == 'a' && "both"@[0] == 'b');
}

/// The number of seconds in a day.
pub const SECONDS_PER_DAY: i64 = 86_400;

/// The settings of the organiser.
#[derive(Debug, Clone, PartialEq)]
pub struct Config {
    pub watched_folder: Option<String>,
    pub organization_mode: String,
    pub rules: Vec<Rule>,
    pub mappings: HashMap<String, String>,
    pub show_menu_bar_icon: bool,
    pub launch_at_login: bool,
    pub auto_check_for_updates: bool,
    pub update_alert_suppress_until: Option<i64>,
}

/// Whether the menu bar icon is shown where a configuration does not say.
pub fn default_show_menu_bar_icon() -> (shown: bool)
    ensures
        shown,
{
    true
}

/// The organisation mode where a configuration does not say: `auto`.
pub fn default_organization_mode() -> (mode: String)
    ensures
        mode@ == OrganizationMode::Auto.word(),
{
    String::from_str("auto")
}

/// Reads the system clock with `SystemTime::now`. What the clock shows is not
/// known beforehand, so nothing is promised of it.
#[verifier::external_body]
fn clock_now() -> (now: SystemTime) {
    SystemTime::now()
}

/// The time from the Unix epoch to `moment`, taken with
/// `SystemTime::duration_since`, which gives an error for a moment before the
/// epoch. Nothing is promised of it.
#[verifier::external_body]
fn since_epoch(moment: &SystemTime) -> (elapsed: Result<Duration, SystemTimeError>) {
    moment.duration_since(std::time::UNIX_EPOCH)
}

/// The whole seconds of a span of time, taken with `Duration::as_secs`.
/// Nothing is promised of them.
#[verifier::external_body]
fn whole_seconds(span: &Duration) -> (seconds: u64) {
    span.as_secs()
}

/// The clock as a time stamp: seconds since the Unix epoch, never negative. A
/// clock that stands before the epoch reads as the epoch itself, and one that
/// stands beyond the last time stamp as that last one.
fn current_timestamp() -> (now: i64)
    ensures
        now >= 0,
{
    let moment = clock_now();
    let reading = match since_epoch(&moment) {
        Ok(span) => Some(whole_seconds(&span)),
        Err(_) => None,
    };
    timestamp_of_reading(reading)
}

/// The time stamp for a reading of the clock in whole seconds since the Unix
/// epoch, where `None` is a clock that stands before the epoch: the seconds
/// themselves, the last time stamp for more seconds than a time stamp holds,
/// and 0 for a clock before the epoch.
pub open spec fn timestamp_of(reading: Option<u64>) -> i64 {
    match reading {
        Some(seconds) => if seconds > i64::MAX {
            i64::MAX
        } else {
            seconds as i64
        },
        None => 0,
    }
}

/// Turns a reading of the clock into a time stamp.
pub fn timestamp_of_reading(reading: Option<u64>) -> (now: i64)
    ensures
        now == timestamp_of(reading),
        now >= 0,
{
    match reading {
        Some(seconds) => if seconds > 0x7fff_ffff_ffff_ffffu64 {
            i64::MAX
        } else {
            seconds as i64
        },
        None => 0,
    }
}

/// Whether an update alert is due at time `now`: always where no suppression
/// is set, otherwise once `now` has reached the time it lasts until.
pub open spec fn alert_due(suppress_until: Option<i64>, now: int) -> bool {
    match suppress_until {
        Some(until) => now >= until,
        None => true,
    }
}

impl Default for Config {
    /// No watched folder, mode `auto`, no rules, the menu bar icon shown,
    /// update checks on and no alert suppressed.
    fn default() -> (config: Self)
        ensures
            config.watched_folder is None,
            config.organization_mode@ == OrganizationMode::Auto.word(),
            config.rules@ == Seq::<Rule>::empty(),
            config.mappings@ == Map::<String, String>::empty(),
            config.show_menu_bar_icon,
            !config.launch_at_login,
            config.auto_check_for_updates,
            config.update_alert_suppress_until is None,
    {
        Config {
            watched_folder: None,
            organization_mode: default_organization_mode(),
            rules: Vec::new(),
            mappings: HashMap::new(),
            show_menu_bar_icon: default_show_menu_bar_icon(),
            launch_at_login: false,
            auto_check_for_updates: true,
            update_alert_suppress_until: None,
        }
    }
}

impl Config {
    /// The rule engine: the destination of the first rule whose condition
    /// accepts the file and whose destination is not empty. Where no rule is
    /// such, there is no destination: nothing stands in for it.
    pub fn destination_of(&self, file_extension: &str, file_name: &str) -> (destination: Option<
        String,
    >)
        ensures
            text_of(destination) == destination_for(self.rules@, file_extension@, file_name@),
            match destination {
                Some(folder) => exists|index: int|
                    is_first_selecting(self.rules@, file_extension@, file_name@, index)
                        && folder@ == self.rules@[index].destination@,
                None => forall|index: int|
                    0 <= index < self.rules@.len() ==> !rule_selects(
                        #[trigger] self.rules@[index]@,
                        file_extension@,
                        file_name@,
                    ),
            },
    {
        let mut index: usize = 0;
        while index < self.rules.len()
            invariant
                index <= self.rules@.len(),
                forall|earlier: int|
                    0 <= earlier < index ==> !rule_selects(
                        #[trigger] self.rules@[earlier]@,
                        file_extension@,
                        file_name@,
                    ),
            decreases self.rules@.len() - index,
        {
            let rule = &self.rules[index];
            if rule.accepts(file_extension, file_name) {
                if !rule.destination.as_str().is_empty() {
                    proof {
                        assert(is_first_selecting(
                            self.rules@,
                            file_extension@,
                            file_name@,
                            index as int,
                        ));
                        lemma_first_selecting_unique(
                            self.rules@,
                            file_extension@,
                            file_name@,
                            index as int,
                        );
                    }
                    return Some(rule.destination.clone());
                }
            }
            index += 1;
        }
        None
    }

    /// The destination that the rules give a file of this name, which is
    /// `None` for a path that ends in no name.
    pub fn destination_for_file(&self, file_name: Option<&str>) -> (destination: Option<String>)
        ensures
            text_of(destination) == destination_for_file(self.rules@, chars_of(file_name)),
    {
        let extension = file_extension_for_rules(file_name);
        let name = match file_name {
            Some(name) => name,
            None => "",
        };
        proof {
            reveal_strlit("");
            assert(""@ =~= Seq::<char>::empty());
        }
        self.destination_of(extension.as_str(), name)
    }

    /// The rule engine, for a file given with its path and creation date,
    /// neither of which any rule looks at: the destination of the first rule
    /// that accepts the file and names a destination, or none.
    pub fn get_destination_folder(
        &self,
        file_path: &PathBuf,
        file_extension: &str,
        file_name: &str,
        created_date: Option<SystemTime>,
    ) -> (destination: Option<String>)
        ensures
            text_of(destination) == destination_for(self.rules@, file_extension@, file_name@),
            match destination {
                Some(folder) => exists|index: int|
                    is_first_selecting(self.rules@, file_extension@, file_name@, index)
                        && folder@ == self.rules@[index].destination@,
                None => forall|index: int|
                    0 <= index < self.rules@.len() ==> !rule_selects(
                        #[trigger] self.rules@[index]@,
                        file_extension@,
                        file_name@,
                    ),
            },
    {
        self.destination_of(file_extension, file_name)
    }

    /// Whether an update alert is due at time `now`, in seconds since the
    /// Unix epoch.
    pub fn should_show_update_alert_at(&self, now: i64) -> (due: bool)
        ensures
            due == alert_due(self.update_alert_suppress_until, now as int),
    {
        match self.update_alert_suppress_until {
            Some(until) => now >= until,
            None => true,
        }
    }

    /// Whether an update alert is due now. The answer is that of
    /// `should_show_update_alert_at` for what the clock shows, which is some
    /// time at or after the epoch.
    pub fn should_show_update_alert(&self) -> (due: bool)
        ensures
            exists|now: int| 0 <= now && due == alert_due(self.update_alert_suppress_until, now),
    {
        match self.update_alert_suppress_until {
            Some(_) => {
                let now = current_timestamp();
                self.should_show_update_alert_at(now)
            },
            None => {
                assert(alert_due(self.update_alert_suppress_until, 0));
                true
            },
        }
    }

    /// Suppresses update alerts until `days` days after `now`.
    pub fn suppress_update_alert_for_days_from(&mut self, now: i64, days: i64)
        requires
            i64::MIN <= now + days * SECONDS_PER_DAY <= i64::MAX,
        ensures
            *final(self) == suppressed_from(*old(self), now + days * SECONDS_PER_DAY),
    {
        let until: i128 = now as i128 + days as i128 * (SECONDS_PER_DAY as i128);
        self.update_alert_suppress_until = Some(until as i64);
    }

    /// Suppresses update alerts until `days` days from now, the clock showing
    /// some time at or after the epoch. Where that moment cannot be written
    /// as a time stamp, the configuration stays as it is.
    pub fn suppress_update_alert_for_days(&mut self, days: i64)
        ensures
            exists|now: int|
                0 <= now && *final(self) == suppressed_from(
                    *old(self),
                    #[trigger] (now + days * SECONDS_PER_DAY),
                ),
    {
        let now = current_timestamp();
        let until: i128 = now as i128 + days as i128 * (SECONDS_PER_DAY as i128);
        if -0x8000_0000_0000_0000i128 <= until && until <= 0x7fff_ffff_ffff_ffffi128 {
            self.suppress_update_alert_for_days_from(now, days);
        }
        assert(*self == suppressed_from(*old(self), now + days * SECONDS_PER_DAY));
    }
}

/// A configuration after update alerts were suppressed until the moment
/// `until`: unchanged where `until` is no time stamp.
pub open spec fn suppressed_from(config: Config, until: int) -> Config {
    if i64::MIN <= until <= i64::MAX {
        Config { update_alert_suppress_until: Some(until as i64), ..config }
    } else {
        config
    }
}

/// The rule engine goes by the order of the rules: the destination of a file
/// is that of the first rule that accepts it and names a destination, and
/// there is none exactly where no rule does both.
pub proof fn lemma_destination_is_first_match(
    rules: Seq<Rule>,
    extension: Seq<char>,
    file_name: Seq<char>,
)
    ensures
        match destination_for(rules, extension, file_name) {
            Some(folder) => exists|index: int|
                is_first_selecting(rules, extension, file_name, index) && folder
                    == rules[index].destination@,
            None => forall|index: int|
                0 <= index < rules.len() ==> !rule_selects(
                    #[trigger] rules[index]@,
                    extension,
                    file_name,
                ),
        },
{
    if exists|index: int| is_first_selecting(rules, extension, file_name, index) {
        let index = choose|index: int| is_first_selecting(rules, extension, file_name, index);
        lemma_first_selecting_unique(rules, extension, file_name, index);
    } else {
        assert forall|index: int| 0 <= index < rules.len() implies !rule_selects(
            #[trigger] rules[index]@,
            extension,
            file_name,
        ) by {
            if rule_selects(rules[index]@, extension, file_name) {
                lemma_some_rule_is_first(rules, extension, file_name, index);
            }
        }
    }
}

/// Where some rule up to `index` decides, one rule is the first that does.
proof fn lemma_some_rule_is_first(
    rules: Seq<Rule>,
    extension: Seq<char>,
    file_name: Seq<char>,
    index: int,
)
    requires
        0 <= index < rules.len(),
        rule_selects(rules[index]@, extension, file_name),
    ensures
        exists|first: int| is_first_selecting(rules, extension, file_name, first),
    decreases index,
{
    if exists|earlier: int|
        0 <= earlier < index && rule_selects(rules[earlier]@, extension, file_name) {
        let earlier = choose|earlier: int|
            0 <= earlier < index && rule_selects(rules[earlier]@, extension, file_name);
        lemma_some_rule_is_first(rules, extension, file_name, earlier);
    } else {
        assert(is_first_selecting(rules, extension, file_name, index));
    }
}

/// At most one rule is the first that decides: the destination that the rules
/// give a file is that of any rule shown to be the first.
pub proof fn lemma_first_selecting_unique(
    rules: Seq<Rule>,
    extension: Seq<char>,
    file_name: Seq<char>,
    index: int,
)
    requires
        is_first_selecting(rules, extension, file_name, index),
    ensures
        forall|other: int|
            is_first_selecting(rules, extension, file_name, other) ==> other == index,
        destination_for(rules, extension, file_name) == Some(rules[index].destination@),
{
    assert forall|other: int| is_first_selecting(rules, extension, file_name, other) implies other
        == index by {
        if other < index {
            assert(!rule_selects(rules[other]@, extension, file_name));
        } else if index < other {
            assert(!rule_selects(rules[index]@, extension, file_name));
        }
    }
    let chosen = choose|i: int| is_first_selecting(rules, extension, file_name, i);
    assert(is_first_selecting(rules, extension, file_name, chosen));
}

} // verus!
