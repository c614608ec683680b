use vstd::prelude::*;

use crate::apps::AppInfo;
use crate::config::Config;

verus! {

/// The keys that the launcher handles itself.
#[derive(Clone, Copy, Debug, PartialEq, Eq, Structural)]
pub enum Key {
    Escape,
    Down,
    Up,
    PageDown,
    PageUp,
    Home,
    End,
    Return,
    KeypadEnter,
    Other,
}

/// How the selection moves.
#[derive(Clone, Copy, Debug, PartialEq, Eq, Structural)]
pub enum SelectionMove {
    /// By this many rows (negative is up).
    By(i32),
    /// To the first row.
    First,
    /// To the last row.
    Last,
}

/// What a key press in the search field does.
#[derive(Clone, Copy, Debug, PartialEq, Eq, Structural)]
pub enum KeyAction {
    /// Hide the launcher.
    Hide,
    /// Move the selection.
    Select(SelectionMove),
    /// Launch the selected application.
    Launch,
    /// Leave the key to the search field.
    Pass,
}

/// Escape hides; Down and Up move by one row, Page Down and Page Up by six; Home and End go to
/// the first and last application; Return and keypad Enter launch; other keys are typing.
pub open spec fn key_action_spec(key: Key) -> KeyAction {
    match key {
        Key::Escape => KeyAction::Hide,
        Key::Down => KeyAction::Select(SelectionMove::By(1i32)),
        Key::Up => KeyAction::Select(SelectionMove::By(-1i32)),
        Key::PageDown => KeyAction::Select(SelectionMove::By(6i32)),
        Key::PageUp => KeyAction::Select(SelectionMove::By(-6i32)),
        Key::Home => KeyAction::Select(SelectionMove::First),
        Key::End => KeyAction::Select(SelectionMove::Last),
        Key::Return => KeyAction::Launch,
        Key::KeypadEnter => KeyAction::Launch,
        Key::Other => KeyAction::Pass,
    }
}

/// What pressing `key` in the search field does.
pub fn key_action(key: Key) -> (r: KeyAction)
    ensures
        r == key_action_spec(key),
{
    match key {
        Key::Escape => KeyAction::Hide,
        Key::Down => KeyAction::Select(SelectionMove::By(1)),
        Key::Up => KeyAction::Select(SelectionMove::By(-1)),
        Key::PageDown => KeyAction::Select(SelectionMove::By(6)),
        Key::PageUp => KeyAction::Select(SelectionMove::By(-6)),
        Key::Home => KeyAction::Select(SelectionMove::First),
        Key::End => KeyAction::Select(SelectionMove::Last),
        Key::Return => KeyAction::Launch,
        Key::KeypadEnter => KeyAction::Launch,
        Key::Other => KeyAction::Pass,
    }
}

/// The row selected after a move among `count` rows from `current` (the first row where none is
/// selected): the sum, held at the `i32` range, then clamped to the rows; nothing for no rows.
pub open spec fn next_selection_spec(count: int, current: Option<int>, mv: SelectionMove) -> Option<
    int,
> {
    if count <= 0 {
        None
    } else {
        let from = match current {
            Some(c) => c,
            None => 0,
        };
        let target = match mv {
            SelectionMove::By(amount) => {
                let sum = from + amount;
                if sum > i32::MAX {
                    i32::MAX as int
                } else if sum < i32::MIN {
                    i32::MIN as int
                } else {
                    sum
                }
            },
            SelectionMove::First => 0,
            SelectionMove::Last => count - 1,
        };
        Some(
            if target < 0 {
                0
            } else if target >= count {
                count - 1
            } else {
                target
            },
        )
    }
}

/// The row to select after `mv` among `count` rows, `current` being the selected row.
pub fn next_selection(count: i32, current: Option<i32>, mv: SelectionMove) -> (r: Option<i32>)
    ensures
        match r {
            Some(v) => next_selection_spec(
                count as int,
                match current {
                    Some(c) => Some(c as int),
                    None => None,
                },
                mv,
            ) == Some(v as int),
            None => next_selection_spec(
                count as int,
                match current {
                    Some(c) => Some(c as int),
                    None => None,
                },
                mv,
            ) is None,
        },
{
    if count <= 0 {
        return None;
    }
    let from: i32 = match current {
        Some(c) => c,
        None => 0,
    };
    let target: i32 = match mv {
        SelectionMove::By(amount) => {
            let sum: i64 = from as i64 + amount as i64;
            if sum > i32::MAX as i64 {
                i32::MAX
            } else if sum < i32::MIN as i64 {
                i32::MIN
            } else {
                sum as i32
            }
        },
        SelectionMove::First => 0,
        SelectionMove::Last => count - 1,
    };
    if target < 0 {
        Some(0)
    } else if target >= count {
        Some(count - 1)
    } else {
        Some(target)
    }
}

/// The application shown at row `position` of the list of `results`, where the row and the
/// application exist.
pub open spec fn row_app_spec(position: int, results: Seq<usize>, app_count: int) -> Option<int> {
    if 0 <= position < results.len() && results[position] < app_count {
        Some(results[position] as int)
    } else {
        None
    }
}

/// The index of the application shown at row `position`.
pub fn row_app(position: i32, results: &Vec<usize>, app_count: usize) -> (r: Option<usize>)
    ensures
        match r {
            Some(i) => row_app_spec(position as int, results@, app_count as int) == Some(i as int),
            None => row_app_spec(position as int, results@, app_count as int) is None,
        },
{
    if position < 0 {
        return None;
    }
    let p = position as usize;
    if p >= results.len() {
        return None;
    }
    let index = results[p];
    if index >= app_count {
        return None;
    }
    Some(index)
}

/// What a row of the list shows.
pub struct RowContent {
    /// The icon name, where icons are shown.
    pub icon: Option<String>,
    /// The application's name.
    pub name: String,
    /// The comment, where comments are shown and it is not empty.
    pub comment: Option<String>,
}

/// What the row for `app` shows: its icon where `show_icons` is set; its name; its comment where
/// `show_comments` is set and the comment is not empty.
pub fn row_content(app: &AppInfo, config: &Config) -> (r: RowContent)
    ensures
        r.icon matches Some(i) ==> i@ == app.icon@,
        r.icon is Some == config.show_icons,
        r.name@ == app.name@,
        match r.comment {
            Some(c) => config.show_comments && app.comment@.len() > 0 && c@ == app.comment@,
            None => !(config.show_comments && app.comment@.len() > 0),
        },
{
    let icon = if config.show_icons {
        Some(app.icon.clone())
    } else {
        None
    };
    let comment = if config.show_comments && !app.comment.as_str().is_empty() {
        Some(app.comment.clone())
    } else {
        None
    };
    RowContent { icon, name: app.name.clone(), comment }
}


/// Wherever the selection moves, it lands on a row that exists.
pub proof fn lemma_selection_in_range(count: int, current: Option<int>, mv: SelectionMove)
    requires
        count > 0,
    ensures
        next_selection_spec(count, current, mv) matches Some(v) && 0 <= v < count,
{
}

} // verus!
