//! The save list's view of a save file, read from its file name:
//! `MODE_name_Difficulty.sav`, where the mode is `MULTIPLAYER` or
//! `SINGLEPLAYER`, the name is anything without a line break, and the
//! difficulty is `Easy`, `Normal`, `Hard` or `Nightmare` (capitalised or not)
//! or a run of digits.

use crate::text::{lower_of, lowercase, push_str, str_eq};
use vstd::prelude::*;
use vstd::string::StrSliceExecFns;

verus! {

/// One row of the save list.
#[derive(Debug, Clone)]
pub struct SaveFileInfo {
    pub id: u32,
    pub name: String,
    pub difficulty: String,
    pub difficulty_class: String,
    pub actual_difficulty: String,
    pub mode: String,
    pub date: String,
    pub current_level: String,
    pub hidden: bool,
    pub path: String,
    pub is_visible: Option<bool>,
}

pub open spec fn is_ascii_digit(c: char) -> bool {
    '0' <= c && c <= '9'
}

/// A difficulty named in a file name, capitalised or not.
pub open spec fn is_named_difficulty(d: Seq<char>) -> bool {
    d == "Easy"@ || d == "easy"@ || d == "Normal"@ || d == "normal"@ || d == "Hard"@ || d
        == "hard"@ || d == "Nightmare"@ || d == "nightmare"@
}

/// A difficulty as a file name spells it: named, or a run of digits.
pub open spec fn is_difficulty_word(d: Seq<char>) -> bool {
    is_named_difficulty(d) || (d.len() > 0 && forall|i: int|
        0 <= i < d.len() ==> is_ascii_digit(#[trigger] d[i]))
}

/// The position of the last `_` in `s`, if any.
pub open spec fn last_underscore(s: Seq<char>) -> Option<int>
    decreases s.len(),
{
    if s.len() == 0 {
        None
    } else if s.last() == '_' {
        Some(s.len() - 1)
    } else {
        last_underscore(s.drop_last())
    }
}

pub open spec fn mode_prefix_len(f: Seq<char>) -> int {
    if f.len() >= 12 && f.subrange(0, 12) == "MULTIPLAYER_"@ {
        12
    } else if f.len() >= 13 && f.subrange(0, 13) == "SINGLEPLAYER_"@ {
        13
    } else {
        0
    }
}

/// The mode, name and difficulty of a save file name, if it follows the pattern.
pub open spec fn save_file_parts(f: Seq<char>) -> Option<(Seq<char>, Seq<char>, Seq<char>)> {
    let m = mode_prefix_len(f);
    if m == 0 || f.len() < m + 4 || f.subrange(f.len() - 4, f.len() as int) != ".sav"@ {
        None
    } else {
        let middle = f.subrange(m, f.len() - 4);
        match last_underscore(middle) {
            None => None,
            Some(u) => {
                let name = middle.subrange(0, u);
                let d = middle.subrange(u + 1, middle.len() as int);
                if name.len() > 0 && (forall|i: int| 0 <= i < name.len() ==> #[trigger] name[i] != '\n')
                    && is_difficulty_word(d) {
                    Some((f.subrange(0, m - 1), name, d))
                } else {
                    None
                }
            },
        }
    }
}

fn is_difficulty(d: &str) -> (r: bool)
    ensures
        r == is_difficulty_word(d@),
{
    if str_eq(d, "Easy") || str_eq(d, "easy") || str_eq(d, "Normal") || str_eq(d, "normal")
        || str_eq(d, "Hard") || str_eq(d, "hard") || str_eq(d, "Nightmare") || str_eq(
        d,
        "nightmare",
    ) {
        return true;
    }
    let n = d.unicode_len();
    if n == 0 {
        return false;
    }
    let mut i: usize = 0;
    while i < n
        invariant
            n == d@.len(),
            i <= n,
            !is_named_difficulty(d@),
            forall|j: int| 0 <= j < i ==> is_ascii_digit(#[trigger] d@[j]),
        decreases n - i,
    {
        let c = d.get_char(i);
        if !('0' <= c && c <= '9') {
            assert(!is_ascii_digit(d@[i as int]));
            return false;
        }
        i += 1;
    }
    true
}

/// The parts of a save file name: its mode, name and difficulty.
pub fn split_save_file_name(f: &str) -> (r: Option<(&str, &str, &str)>)
    ensures
        match r {
            Some((m, n, d)) => save_file_parts(f@) == Some((m@, n@, d@)),
            None => save_file_parts(f@) is None,
        },
{
    proof {
        reveal_strlit("MULTIPLAYER_");
        reveal_strlit("SINGLEPLAYER_");
        assert("MULTIPLAYER_"@[0] != "SINGLEPLAYER_"@[0]);
    }
    let len = f.unicode_len();
    let m: usize = if len >= 12 && str_eq(f.substring_char(0, 12), "MULTIPLAYER_") {
        12
    } else if len >= 13 && str_eq(f.substring_char(0, 13), "SINGLEPLAYER_") {
        13
    } else {
        0
    };
    assert(m == mode_prefix_len(f@));
    if m == 0 || len < m + 4 || !str_eq(f.substring_char(len - 4, len), ".sav") {
        return None;
    }
    let middle = f.substring_char(m, len - 4);
    let k = middle.unicode_len();
    let mut u = k;
    let mut found = false;
    assert(middle@.subrange(0, k as int) =~= middle@);
    while u > 0 && !found
        invariant
            u <= k,
            k == middle@.len(),
            !found ==> last_underscore(middle@) == last_underscore(middle@.subrange(0, u as int)),
            found ==> u > 0 && last_underscore(middle@) == Some(u - 1),
        decreases u, if found { 0int } else { 1int },
    {
        if middle.get_char(u - 1) == '_' {
            found = true;
            assert(middle@.subrange(0, u as int).last() == '_');
        } else {
            assert(middle@.subrange(0, u as int).drop_last() =~= middle@.subrange(0, u - 1));
            u -= 1;
        }
    }
    if !found {
        assert(last_underscore(middle@.subrange(0, 0)) is None);
        return None;
    }
    let at = u - 1;
    let name = middle.substring_char(0, at);
    let diff = middle.substring_char(at + 1, k);
    let mut i: usize = 0;
    let mut clean = true;
    while i < at
        invariant
            at == name@.len(),
            i <= at,
            clean == forall|j: int| 0 <= j < i ==> name@[j] != '\n',
        decreases at - i,
    {
        if name.get_char(i) == '\n' {
            clean = false;
        }
        i += 1;
    }
    if at == 0 || !clean || !is_difficulty(diff) {
        return None;
    }
    let mode = f.substring_char(0, m - 1);
    Some((mode, name, diff))
}

/// The label and style class of a difficulty, after lowercasing; an
/// unknown one (a numbered difficulty) shows as normal.
pub open spec fn difficulty_display(l: Seq<char>) -> (Seq<char>, Seq<char>) {
    if l == "easy"@ {
        ("简单难度"@, "Easy"@)
    } else if l == "hard"@ {
        ("困难难度"@, "Hard"@)
    } else if l == "nightmare"@ {
        ("噩梦难度"@, "Nightmare"@)
    } else {
        ("普通难度"@, "Normal"@)
    }
}

pub open spec fn mode_display(m: Seq<char>) -> Seq<char> {
    if m == "MULTIPLAYER"@ {
        "多人模式"@
    } else {
        "单人模式"@
    }
}

/// The row of the save list for the file `file_name` at `path`; `hidden` says
/// whether the file lies outside the game's save directory. A file name that
/// does not follow the pattern is an error naming it.
pub fn build_save_info(
    index: u32,
    file_name: &str,
    path: &str,
    hidden: bool,
    current_level: String,
    actual_difficulty: String,
    date: String,
) -> (r: Result<SaveFileInfo, String>)
    ensures
        match save_file_parts(file_name@) {
            None => r matches Err(e) && e@ == "文件名格式不匹配: "@ + file_name@,
            Some((m, n, d)) => r matches Ok(info) && {
                &&& info.id == index
                &&& info.name@ == n
                &&& info.mode@ == mode_display(m)
                &&& (info.difficulty@, info.difficulty_class@) == difficulty_display(lower_of(d))
                &&& info.actual_difficulty@ == actual_difficulty@
                &&& info.date@ == date@
                &&& info.current_level@ == current_level@
                &&& info.hidden == hidden
                &&& info.path@ == path@
                &&& info.is_visible is None
            },
        },
{
    let (mode_raw, name, diff_raw) = match split_save_file_name(file_name) {
        Some(parts) => parts,
        None => {
            let mut e = "文件名格式不匹配: ".to_owned();
            push_str(&mut e, file_name);
            return Err(e);
        },
    };
    let mode = if str_eq(mode_raw, "MULTIPLAYER") {
        "多人模式"
    } else {
        "单人模式"
    };
    let lower = lowercase(diff_raw);
    let l = lower.as_str();
    let (difficulty, class) = if str_eq(l, "easy") {
        ("简单难度", "Easy")
    } else if str_eq(l, "hard") {
        ("困难难度", "Hard")
    } else if str_eq(l, "nightmare") {
        ("噩梦难度", "Nightmare")
    } else {
        ("普通难度", "Normal")
    };
    Ok(
        SaveFileInfo {
            id: index,
            name: name.to_owned(),
            difficulty: difficulty.to_owned(),
            difficulty_class: class.to_owned(),
            actual_difficulty,
            mode: mode.to_owned(),
            date,
            current_level,
            hidden,
            path: path.to_owned(),
            is_visible: None,
        },
    )
}

} // verus!
