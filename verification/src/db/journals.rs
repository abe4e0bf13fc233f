//! Journal entries and the figures shown on the dashboard.

use crate::db::search::{fts_query, match_query};
use crate::error::AppError;
use crate::text::{
    blank, char_count, is_blank, to_lowercase, trim, trimmed, unicode_lowercase, views,
};
use crate::time::{accepted_as_rfc3339, is_rfc3339, parse_day, parsed_day, Timestamp};
use vstd::prelude::*;

verus! {

/// Entry types for different journaling modes.
#[derive(Debug, Clone, Copy, PartialEq, Eq, Structural)]
pub enum EntryType {
    Morning,
    Evening,
    Gratitude,
    Reflection,
}

impl EntryType {
    /// The lowercase name of the entry type.
    pub open spec fn name(self) -> Seq<char> {
        match self {
            EntryType::Morning => "morning"@,
            EntryType::Evening => "evening"@,
            EntryType::Gratitude => "gratitude"@,
            EntryType::Reflection => "reflection"@,
        }
    }

    /// The entry type that `text` names, whatever its case; a text that
    /// names none is a reflection.
    pub open spec fn named_by(text: Seq<char>) -> EntryType {
        let lower = unicode_lowercase(text);
        if lower == "morning"@ {
            EntryType::Morning
        } else if lower == "evening"@ {
            EntryType::Evening
        } else if lower == "gratitude"@ {
            EntryType::Gratitude
        } else {
            EntryType::Reflection
        }
    }

    pub fn as_str(&self) -> (name: &'static str)
        ensures
            name@ == self.name(),
    {
        match self {
            EntryType::Morning => "morning",
            EntryType::Evening => "evening",
            EntryType::Gratitude => "gratitude",
            EntryType::Reflection => "reflection",
        }
    }

    /// Reads an entry type from its name, ignoring case. Unknown names give
    /// `Reflection`.
    pub fn parse(text: &str) -> (entry_type: EntryType)
        ensures
            entry_type == EntryType::named_by(text@),
    {
        let lower = to_lowercase(text);
        if lower == String::from_str("morning") {
            EntryType::Morning
        } else if lower == String::from_str("evening") {
            EntryType::Evening
        } else if lower == String::from_str("gratitude") {
            EntryType::Gratitude
        } else {
            EntryType::Reflection
        }
    }
}

impl std::str::FromStr for EntryType {
    type Err = std::convert::Infallible;

    fn from_str(text: &str) -> (result: Result<Self, Self::Err>)
        ensures
            result matches Ok(entry_type) && entry_type == EntryType::named_by(text@),
    {
        Ok(EntryType::parse(text))
    }
}

impl Default for EntryType {
    fn default() -> (entry_type: EntryType)
        ensures
            entry_type == EntryType::Reflection,
    {
        EntryType::Reflection
    }
}

/// A journal entry as the store holds it.
#[derive(Debug, Clone)]
pub struct Journal {
    pub id: String,
    pub content: String,
    pub title: Option<String>,
    pub entry_type: EntryType,
    pub created_at: Timestamp,
    pub updated_at: Timestamp,
    pub is_archived: bool,
}

impl Journal {
    /// A copy of the entry, field by field.
    pub fn copy(&self) -> (copy: Journal)
        ensures
            copy == *self,
    {
        Journal {
            id: self.id.clone(),
            content: self.content.clone(),
            title: match &self.title {
                Some(text) => Some(text.clone()),
                None => None,
            },
            entry_type: self.entry_type,
            created_at: self.created_at,
            updated_at: self.updated_at,
            is_archived: self.is_archived,
        }
    }
}

#[derive(Debug)]
pub struct CreateEntryResponse {
    pub status: String,
    pub id: String,
}

#[derive(Debug)]
pub struct DeleteResponse {
    pub success: bool,
}

/// Stats for the journal dashboard.
#[derive(Debug)]
pub struct JournalStats {
    pub total_entries: i64,
    pub streak_days: i64,
    pub entries_this_week: i64,
    pub entries_this_month: i64,
}

/// Extended streak information for the dashboard.
#[derive(Debug)]
pub struct StreakInfo {
    pub current_streak: u32,
    pub longest_streak: u32,
    pub last_entry_date: Option<String>,
    pub entries_this_week: Vec<String>,
}

/// Emotion summary for a single day.
#[derive(Debug)]
pub struct DayEmotions {
    pub date: String,
    pub dominant_emotion: Option<String>,
    pub entry_count: u32,
}

/// The form in which the store writes days.
pub const DAY_FORMAT: &'static str = "%Y-%m-%d";

/// Entries listed where the caller names no limit.
pub const DEFAULT_PAGE_SIZE: i64 = 50;

/// Entries listed at most, whatever the caller asks for.
pub const MAX_PAGE_SIZE: i64 = 100;

/// Which entries a listing shows.
#[derive(Debug, Clone, Copy, PartialEq, Eq, Structural)]
pub enum ArchiveSelection {
    /// Archived or not.
    Any,
    /// Archived entries only.
    ArchivedOnly,
    /// Entries that are not archived only.
    UnarchivedOnly,
}

/// The query that lists entries of either kind.
pub const LIST_ANY_SQL: &'static str =
    "SELECT id, content, title, entry_type, created_at, updated_at, is_archived FROM journals ORDER BY created_at DESC LIMIT ?1 OFFSET ?2";

/// The query that lists entries by their archived flag, given as the first
/// parameter.
pub const LIST_BY_FLAG_SQL: &'static str =
    "SELECT id, content, title, entry_type, created_at, updated_at, is_archived FROM journals WHERE is_archived = ?1 ORDER BY created_at DESC LIMIT ?2 OFFSET ?3";

/// The full-text search over all entries.
pub const SEARCH_ANY_SQL: &'static str =
    "SELECT j.id, j.content, j.title, j.entry_type, j.created_at, j.updated_at, j.is_archived FROM journals j JOIN journals_fts fts ON j.rowid = fts.rowid WHERE journals_fts MATCH ?1 ORDER BY rank LIMIT 50";

/// The full-text search over entries that are not archived.
pub const SEARCH_UNARCHIVED_SQL: &'static str =
    "SELECT j.id, j.content, j.title, j.entry_type, j.created_at, j.updated_at, j.is_archived FROM journals j JOIN journals_fts fts ON j.rowid = fts.rowid WHERE journals_fts MATCH ?1 AND j.is_archived = 0 ORDER BY rank LIMIT 50";

/// A listing resolved to a fixed query and its parameters.
#[derive(Debug, Clone, Copy, PartialEq, Eq, Structural)]
pub struct ListQuery {
    pub selection: ArchiveSelection,
    pub limit: i64,
    pub offset: i64,
}

/// A full-text search resolved to a fixed query and its parameter.
#[derive(Debug)]
pub struct SearchQuery {
    pub sql: &'static str,
    pub match_text: String,
}

/// The page size for a wish of `limit`: the default where none is named,
/// and never more than the maximum.
pub open spec fn page_size(limit: Option<i64>) -> i64 {
    let wished = match limit {
        Some(n) => n,
        None => DEFAULT_PAGE_SIZE,
    };
    if wished < MAX_PAGE_SIZE {
        wished
    } else {
        MAX_PAGE_SIZE
    }
}

/// The selection that an optional archived flag stands for.
pub open spec fn selection_for(archived: Option<bool>) -> ArchiveSelection {
    match archived {
        None => ArchiveSelection::Any,
        Some(true) => ArchiveSelection::ArchivedOnly,
        Some(false) => ArchiveSelection::UnarchivedOnly,
    }
}

/// The columns that an update of an entry sets: the time of the update
/// always, then each field that is given.
pub open spec fn entry_columns(content: bool, title: bool, entry_type: bool, created_at: bool) -> Seq<
    Seq<char>,
> {
    seq!["updated_at"@] + (if content {
        seq!["content"@]
    } else {
        Seq::empty()
    }) + (if title {
        seq!["title"@]
    } else {
        Seq::empty()
    }) + (if entry_type {
        seq!["entry_type"@]
    } else {
        Seq::empty()
    }) + (if created_at {
        seq!["created_at"@]
    } else {
        Seq::empty()
    })
}

/// The days that `dates` name, each read in the store's day format.
pub open spec fn days_of(dates: Seq<Seq<char>>) -> Seq<Option<i32>> {
    Seq::new(dates.len(), |i: int| parsed_day(dates[i], DAY_FORMAT@))
}

/// `later` is the day after `earlier`, and both are known.
pub open spec fn day_after(later: Option<i32>, earlier: Option<i32>) -> bool {
    later is Some && earlier is Some && later->0 - earlier->0 == 1
}

/// The length of the run of consecutive days that `days`, listed latest
/// first, starts with.
pub open spec fn leading_run(days: Seq<Option<i32>>) -> nat
    decreases days.len(),
{
    if days.len() <= 1 {
        days.len()
    } else if day_after(days[0], days[1]) {
        1 + leading_run(days.drop_first())
    } else {
        1
    }
}

/// The length of the longest run of consecutive days in `days`, listed
/// latest first.
pub open spec fn longest_run(days: Seq<Option<i32>>) -> nat
    decreases days.len(),
{
    if days.len() == 0 {
        0
    } else if leading_run(days) > longest_run(days.drop_first()) {
        leading_run(days)
    } else {
        longest_run(days.drop_first())
    }
}

/// The current streak: the run of consecutive days that the latest day
/// starts, if that day is `today` or the day before; none otherwise.
pub open spec fn current_run(days: Seq<Option<i32>>, today: i32) -> nat {
    if days.len() == 0 {
        0
    } else if days[0] is Some && (days[0]->0 == today || days[0]->0 == today - 1) {
        leading_run(days)
    } else {
        0
    }
}

/// `count` as a 32-bit number, capped at the largest.
pub open spec fn capped(count: nat) -> u32 {
    if count > u32::MAX {
        u32::MAX
    } else {
        count as u32
    }
}

/// The dates of `dates` that lie in the week from `week_start` to `today`.
pub open spec fn this_week(dates: Seq<Seq<char>>, week_start: i32, today: i32) -> Seq<Seq<char>>
    decreases dates.len(),
{
    if dates.len() == 0 {
        Seq::empty()
    } else {
        let before = this_week(dates.drop_last(), week_start, today);
        match parsed_day(dates.last(), DAY_FORMAT@) {
            Some(day) => if week_start <= day <= today {
                before.push(dates.last())
            } else {
                before
            },
            None => before,
        }
    }
}

/// Accepts content that holds more than whitespace.
pub fn validate_content(content: &str) -> (result: Result<(), AppError>)
    ensures
        result is Ok <==> !blank(content@),
        result matches Err(error) ==> error is InvalidInput && error.reason()
            == "Content cannot be empty"@,
{
    if is_blank(content) {
        return Err(AppError::InvalidInput(String::from_str("Content cannot be empty")));
    }
    Ok(())
}

/// The name of the entry type to store: the one given, or `reflection`.
pub fn entry_type_or_default(entry_type: Option<&str>) -> (name: String)
    ensures
        name@ == match entry_type {
            Some(given) => given@,
            None => "reflection"@,
        },
{
    match entry_type {
        Some(given) => String::from_str(given),
        None => String::from_str("reflection"),
    }
}

/// Checks the fields of an update before anything is written: content, if
/// given, must hold more than whitespace, and a creation time, if given,
/// must be in RFC 3339 form.
pub fn validate_update(content: Option<&str>, created_at: Option<&str>) -> (result: Result<
    (),
    AppError,
>)
    ensures
        result is Ok <==> (content matches Some(text) ==> !blank(text@)) && (
        created_at matches Some(text) ==> accepted_as_rfc3339(text@)),
        result matches Err(error) ==> error is InvalidInput,
        (content matches Some(text) && blank(text@)) ==> (result matches Err(error)
            && error.reason() == "Content cannot be empty"@),
        !(content matches Some(text) && blank(text@)) ==> (result matches Err(error)
            ==> created_at is Some && error.reason() == "Invalid created_at date format: "@
            + created_at->0@),
{
    if let Some(text) = content {
        if is_blank(text) {
            return Err(AppError::InvalidInput(String::from_str("Content cannot be empty")));
        }
    }
    if let Some(text) = created_at {
        if !is_rfc3339(text) {
            let mut message = String::from_str("Invalid created_at date format: ");
            message.append(text);
            return Err(AppError::InvalidInput(message));
        }
    }
    Ok(())
}

/// The columns that an update of an entry sets, in the order of their
/// parameters: `updated_at` first, then each field that is given.
pub fn entry_update_columns(content: bool, title: bool, entry_type: bool, created_at: bool) -> (columns:
    Vec<String>)
    ensures
        views(columns@) == entry_columns(content, title, entry_type, created_at),
        columns.len() <= 5,
{
    let mut columns: Vec<String> = Vec::new();
    columns.push(String::from_str("updated_at"));
    if content {
        columns.push(String::from_str("content"));
    }
    if title {
        columns.push(String::from_str("title"));
    }
    if entry_type {
        columns.push(String::from_str("entry_type"));
    }
    if created_at {
        columns.push(String::from_str("created_at"));
    }
    assert(views(columns@) =~= entry_columns(content, title, entry_type, created_at));
    columns
}

/// The error for an entry that the store does not have.
pub fn entry_not_found(id: &str) -> (error: AppError)
    ensures
        error is NotFound,
        error.reason() == "Journal entry not found: "@ + id@,
{
    let mut message = String::from_str("Journal entry not found: ");
    message.append(id);
    AppError::NotFound(message)
}

/// Resolves a listing to a fixed query: the page size is the limit asked
/// for, 50 by default and 100 at most; the offset is 0 by default.
pub fn list_query(limit: Option<i64>, offset: Option<i64>, archived: Option<bool>) -> (query: ListQuery)
    ensures
        query.limit == page_size(limit),
        query.offset == match offset {
            Some(n) => n,
            None => 0,
        },
        query.selection == selection_for(archived),
{
    let wished = match limit {
        Some(n) => n,
        None => DEFAULT_PAGE_SIZE,
    };
    ListQuery {
        selection: match archived {
            None => ArchiveSelection::Any,
            Some(true) => ArchiveSelection::ArchivedOnly,
            Some(false) => ArchiveSelection::UnarchivedOnly,
        },
        limit: if wished < MAX_PAGE_SIZE {
            wished
        } else {
            MAX_PAGE_SIZE
        },
        offset: match offset {
            Some(n) => n,
            None => 0,
        },
    }
}

impl ListQuery {
    /// The text of the query: one fixed statement for each selection.
    pub fn sql(&self) -> (text: &'static str)
        ensures
            text@ == if self.selection == ArchiveSelection::Any {
                LIST_ANY_SQL@
            } else {
                LIST_BY_FLAG_SQL@
            },
    {
        match self.selection {
            ArchiveSelection::Any => LIST_ANY_SQL,
            _ => LIST_BY_FLAG_SQL,
        }
    }

    /// The archived flag that the query is given as its first parameter,
    /// where it selects by the flag.
    pub fn flag(&self) -> (flag: Option<i32>)
        ensures
            flag == match self.selection {
                ArchiveSelection::Any => None,
                ArchiveSelection::ArchivedOnly => Some(1i32),
                ArchiveSelection::UnarchivedOnly => Some(0i32),
            },
    {
        match self.selection {
            ArchiveSelection::Any => None,
            ArchiveSelection::ArchivedOnly => Some(1),
            ArchiveSelection::UnarchivedOnly => Some(0),
        }
    }
}

/// Resolves a full-text search over the entries. A query that is empty or
/// all whitespace searches nothing: the answer is `None`, and the search has
/// no results.
pub fn search_query(query: &str, include_archived: bool) -> (out: Option<SearchQuery>)
    ensures
        out is None <==> blank(query@),
        out matches Some(found) ==> found.match_text@ == match_query(query@) && found.sql@ == if include_archived {
            SEARCH_ANY_SQL@
        } else {
            SEARCH_UNARCHIVED_SQL@
        },
{
    match fts_query(query) {
        None => None,
        Some(match_text) => Some(
            SearchQuery {
                sql: if include_archived {
                    SEARCH_ANY_SQL
                } else {
                    SEARCH_UNARCHIVED_SQL
                },
                match_text,
            },
        ),
    }
}

/// The days that `dates` name.
fn parse_days(dates: &Vec<String>) -> (days: Vec<Option<i32>>)
    ensures
        days@ == days_of(views(dates@)),
{
    let mut days: Vec<Option<i32>> = Vec::new();
    let mut i: usize = 0;
    while i < dates.len()
        invariant
            i <= dates.len(),
            days.len() == i,
            forall|k: int| 0 <= k < i ==> days@[k] == days_of(views(dates@))[k],
        decreases dates.len() - i,
    {
        days.push(parse_day(dates[i].as_str(), DAY_FORMAT));
        i += 1;
    }
    assert(days@ =~= days_of(views(dates@)));
    days
}

fn is_day_after(later: Option<i32>, earlier: Option<i32>) -> (yes: bool)
    ensures
        yes == day_after(later, earlier),
{
    match (later, earlier) {
        (Some(l), Some(e)) => l as i64 - e as i64 == 1,
        _ => false,
    }
}

/// The length of the run of consecutive days that `days` starts with from
/// `from` on.
fn run_from(days: &Vec<Option<i32>>, from: usize) -> (run: usize)
    requires
        from <= days.len(),
    ensures
        run == leading_run(days@.skip(from as int)),
{
    let n = days.len();
    if from == n {
        return 0;
    }
    let mut end: usize = from + 1;
    while end < n && is_day_after(days[end - 1], days[end])
        invariant
            from < end <= n == days.len(),
            leading_run(days@.skip(from as int)) == (end - 1 - from) + leading_run(
                days@.skip(end - 1),
            ),
        decreases n - end,
    {
        let ghost rest = days@.skip(end - 1);
        assert(rest[0] == days@[end - 1] && rest[1] == days@[end as int]);
        assert(rest.drop_first() =~= days@.skip(end as int));
        end += 1;
    }
    proof {
        let rest = days@.skip(end - 1);
        if end < n {
            assert(rest[0] == days@[end - 1] && rest[1] == days@[end as int]);
        }
    }
    end - from
}

fn cap(count: usize) -> (out: u32)
    ensures
        out == capped(count as nat),
{
    if count as u64 > u32::MAX as u64 {
        u32::MAX
    } else {
        count as u32
    }
}

/// The longest streak among days listed latest first: the length of the
/// longest run of consecutive days. A day that is not known (`None`) ends
/// the run before it and starts none. The count is capped at the largest
/// 32-bit number.
pub fn longest_streak(days: &Vec<Option<i32>>) -> (longest: u32)
    ensures
        longest == capped(longest_run(days@)),
{
    let n = days.len();
    let mut longest: usize = 0;
    let mut run: usize = 0;
    let mut i: usize = n;
    assert(days@.skip(n as int) =~= Seq::empty());
    while i > 0
        invariant
            i <= n == days.len(),
            longest == longest_run(days@.skip(i as int)),
            run == leading_run(days@.skip(i as int)),
            run <= n - i,
        decreases i,
    {
        let ghost here = days@.skip(i - 1);
        assert(here.drop_first() =~= days@.skip(i as int));
        assert(here[0] == days@[i - 1]);
        if i < n {
            assert(here[1] == days@[i as int]);
        }
        run = if i < n && is_day_after(days[i - 1], days[i]) {
            run + 1
        } else {
            1
        };
        if run > longest {
            longest = run;
        }
        i -= 1;
    }
    assert(days@.skip(0) =~= days@);
    cap(longest)
}

/// Calculate the longest streak from a list of dates (descending order).
///
/// A streak is a run of consecutive days. A date that cannot be read ends
/// the run before it and starts none.
pub fn calculate_longest_streak(dates: &Vec<String>) -> (longest: u32)
    ensures
        longest == capped(longest_run(days_of(views(dates@)))),
{
    let days = parse_days(dates);
    longest_streak(&days)
}

/// The current streak among days listed latest first: the number of
/// consecutive days with an entry, ending today or yesterday, and none where
/// the latest day is neither. `today` is the number of today's day.
pub fn current_streak(days: &Vec<Option<i32>>, today: i32) -> (streak: usize)
    ensures
        streak == current_run(days@, today),
{
    if days.len() == 0 {
        return 0;
    }
    let recent = match days[0] {
        Some(day) => day == today || day as i64 == today as i64 - 1,
        None => false,
    };
    if !recent {
        return 0;
    }
    assert(days@.skip(0) =~= days@);
    run_from(days, 0)
}

/// Calculate the current journaling streak: the number of consecutive days
/// with at least one entry, ending today or yesterday. The latest date must
/// be readable.
pub fn calculate_streak(dates: &Vec<String>, today: i32) -> (result: Result<i64, AppError>)
    ensures
        result is Err <==> dates.len() > 0 && parsed_day(dates[0]@, DAY_FORMAT@) is None,
        result matches Err(error) ==> error is InvalidInput && error.reason()
            == "Invalid date format"@,
        result matches Ok(streak) ==> streak == if current_run(days_of(views(dates@)), today)
            > i64::MAX {
            i64::MAX as int
        } else {
            current_run(days_of(views(dates@)), today) as int
        },
{
    let days = parse_days(dates);
    if days.len() > 0 && days[0].is_none() {
        return Err(AppError::InvalidInput(String::from_str("Invalid date format")));
    }
    let streak = current_streak(&days, today);
    if streak as u64 > i64::MAX as u64 {
        Ok(i64::MAX)
    } else {
        Ok(streak as i64)
    }
}

/// Extended streak information for the dashboard, from the distinct days
/// with entries, listed latest first. `today` and `week_start` are the
/// numbers of today's day and of the Sunday that began this week.
pub fn streak_info(dates: &Vec<String>, today: i32, week_start: i32) -> (info: StreakInfo)
    ensures
        info.current_streak == capped(current_run(days_of(views(dates@)), today)),
        info.longest_streak == capped(longest_run(days_of(views(dates@)))),
        info.last_entry_date is Some <==> dates.len() > 0,
        info.last_entry_date matches Some(date) ==> date@ == dates[0]@,
        views(info.entries_this_week@) == this_week(views(dates@), week_start, today),
{
    let days = parse_days(dates);
    let current = current_streak(&days, today);
    let longest = calculate_longest_streak(dates);
    let last_entry_date = if dates.len() > 0 {
        Some(dates[0].clone())
    } else {
        None
    };
    let ghost all = views(dates@);
    let mut entries_this_week: Vec<String> = Vec::new();
    let mut i: usize = 0;
    assert(all.take(0) =~= Seq::empty());
    while i < dates.len()
        invariant
            i <= dates.len() == days.len(),
            all == views(dates@),
            days@ == days_of(all),
            views(entries_this_week@) == this_week(all.take(i as int), week_start, today),
        decreases dates.len() - i,
    {
        let ghost upto = all.take(i + 1);
        assert(upto.drop_last() =~= all.take(i as int));
        assert(upto.last() == dates@[i as int]@);
        assert(days@[i as int] == parsed_day(all[i as int], DAY_FORMAT@));
        if let Some(day) = days[i] {
            if week_start <= day && day <= today {
                let ghost before = entries_this_week@;
                entries_this_week.push(dates[i].clone());
                assert(views(entries_this_week@) =~= views(before).push(upto.last()));
            }
        }
        i += 1;
    }
    assert(all.take(dates.len() as int) =~= all);
    StreakInfo {
        current_streak: cap(current),
        longest_streak: longest,
        last_entry_date,
        entries_this_week,
    }
}

/// Whether an entry is long enough to be given a title: its content,
/// trimmed, has at least 20 characters.
pub fn wants_title(content: &str) -> (yes: bool)
    ensures
        yes == (trimmed(content@).len() >= 20),
{
    let text = trim(content);
    char_count(text.as_str()) >= 20
}

} // verus!
