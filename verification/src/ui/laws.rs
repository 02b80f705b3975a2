use vstd::prelude::*;
use crate::scanner::{as_ints, Entry};
use crate::system::string_texts;
use crate::text::{digits_value, lemma_decimal_value};
use crate::ui::theme::{lemma_position_bounds, lemma_position_in, position_in, theme_for, theme_names, THEME_COUNT};
use crate::ui::{
    button_effect, detail_lines_spec, items_text_spec, cycling_sort, cycling_theme, entering, flipping_order, going_up, key_effect, lowering_rate,
    next_theme_index, raising_rate, scan_taken, shown_order, AppMode, AppUi, Key, UiAction,
};

verus! {

/// The list of `ui` is the one that its sort key, direction and query give.
pub open spec fn listed(ui: AppUi) -> bool {
    as_ints(ui.current_entries@) == shown_order(ui.root, ui.sort_field, ui.sort_order, ui.search_query@)
}

proof fn lemma_as_ints_injective(a: Seq<usize>, b: Seq<usize>)
    requires
        as_ints(a) == as_ints(b),
    ensures
        a == b,
{
    assert(a.len() == as_ints(a).len());
    assert(b.len() == as_ints(b).len());
    assert forall|k: int| 0 <= k < a.len() implies a[k] == b[k] by {
        assert(as_ints(a)[k] == a[k] as int);
        assert(as_ints(b)[k] == b[k] as int);
    }
    assert(a =~= b);
}

/// Turning the direction round twice gives the view back as it was.
pub proof fn lemma_flip_twice(o: AppUi, m: AppUi, n: AppUi)
    requires
        listed(o),
        flipping_order(o, m, UiAction::Nothing),
        flipping_order(m, n, UiAction::Nothing),
    ensures
        n.sort_order == o.sort_order,
        n.current_entries@ == o.current_entries@,
        n == (AppUi { current_entries: n.current_entries, ..o }),
{
    lemma_as_ints_injective(n.current_entries@, o.current_entries@);
}

/// Taking the next sort key three times comes back to the key, and the list,
/// one started from.
pub proof fn lemma_cycle_sort_thrice(o: AppUi, m1: AppUi, m2: AppUi, n: AppUi)
    requires
        listed(o),
        cycling_sort(o, m1, UiAction::Nothing),
        cycling_sort(m1, m2, UiAction::Nothing),
        cycling_sort(m2, n, UiAction::Nothing),
    ensures
        n.sort_field == o.sort_field,
        n.current_entries@ == o.current_entries@,
        n == (AppUi { current_entries: n.current_entries, ..o }),
{
    lemma_as_ints_injective(n.current_entries@, o.current_entries@);
}

/// In a search, typing a character and erasing it gives back the query, and
/// the list is the one that query gives.
pub proof fn lemma_type_then_erase(o: AppUi, c: char, m: AppUi, a: UiAction, n: AppUi, b: UiAction)
    requires
        !o.scanning,
        o.mode == AppMode::Search,
        key_effect(o, Key::Char(c), m, a),
        key_effect(m, Key::Backspace, n, b),
    ensures
        n.search_query@ == o.search_query@,
        n.mode == AppMode::Search,
        listed(n),
        n == (AppUi {
            current_entries: n.current_entries,
            selected: n.selected,
            search_query: n.search_query,
            ..o
        }),
{
    assert(o.search_query@.push(c).drop_last() =~= o.search_query@);
}

/// Entering a directory, taking in its scan and going up again comes back to
/// where the view was: the same scanned directory and the same names entered,
/// with a scan asked for.
pub proof fn lemma_enter_then_back(
    o: AppUi,
    m: AppUi,
    result: Result<Entry, String>,
    r: Result<(), String>,
    m2: AppUi,
    n: AppUi,
    a: UiAction,
)
    requires
        entering(o, m, UiAction::Rescan),
        scan_taken(m, result, m2, r),
        going_up(m2, n, a),
    ensures
        a == UiAction::Rescan,
        n.scan_path == o.scan_path,
        string_texts(n.current_stack@) == string_texts(o.current_stack@),
{
    let p = o.selected_position().unwrap();
    let e = o.root.children@[p];
    assert(string_texts(o.current_stack@).push(e.name@).drop_last() =~= string_texts(o.current_stack@));
}

/// The key printed on button `i` of the bar.
pub open spec fn button_key(i: int) -> Key {
    if i == 0 {
        Key::Char('s')
    } else if i == 1 {
        Key::Char('/')
    } else if i == 2 {
        Key::Enter
    } else if i == 3 {
        Key::Backspace
    } else if i == 4 {
        Key::Char('d')
    } else if i == 5 {
        Key::Char('g')
    } else if i == 6 {
        Key::Char('r')
    } else if i == 7 {
        Key::Char('T')
    } else if i == 8 {
        Key::Char('+')
    } else if i == 9 {
        Key::Char('-')
    } else {
        Key::Char('q')
    }
}

/// In the list, a click on button `i` does what the key printed on it does,
/// and marks the button pressed. The one difference: the Root button also
/// marks the view as scanning, which the key `g` leaves as it was.
pub proof fn lemma_button_is_key(o: AppUi, i: int, n: AppUi, a: UiAction)
    requires
        !o.scanning,
        o.mode == AppMode::List,
        0 <= i <= 10,
    ensures
        i != 5 ==> (button_effect(o, i, n, a) <==> key_effect(
            (AppUi { pressed_button: Some(i as usize), ..o }),
            button_key(i),
            n,
            a,
        )),
        i == 5 ==> (button_effect(o, i, n, a) <==> n.scanning && key_effect(
            (AppUi { pressed_button: Some(5), ..o }),
            button_key(5),
            (AppUi { scanning: false, ..n }),
            a,
        )),
{
    if i == 5 {
        let m = AppUi { scanning: false, ..n };
        if n.scanning {
            assert(n == (AppUi { scanning: true, ..m }));
        }
    }
}

/// The item column of a directory is a text of digits that stands for its
/// item count, the number that the Items line of the detail panel shows too;
/// that of a file reads "-".
pub proof fn lemma_items_text(e: Entry)
    ensures
        e.is_dir ==> digits_value(items_text_spec(e)) == e.item_count,
        e.is_dir ==> forall|i: int|
            0 <= i < items_text_spec(e).len() ==> '0' <= #[trigger] items_text_spec(e)[i] <= '9',
        e.is_dir ==> detail_lines_spec(e)[3] == " Items:      "@ + items_text_spec(e),
        !e.is_dir ==> items_text_spec(e) == seq!['-'],
{
    lemma_decimal_value(e.item_count as nat);
}

/// Outside a search, `k` does what Up does, `j` what Down does, and `q` what
/// Esc does; in the list, Right does what Enter does, Left what Backspace
/// does, `=` what `+` does and `_` what `-` does. In the list, Up selects the
/// row above, from the top row the last one, and Down the row below, from the
/// last row the top one; nothing else changes.
pub proof fn lemma_key_pairs(o: AppUi, n: AppUi, a: UiAction)
    ensures
        o.mode != AppMode::Search ==> (key_effect(o, Key::Char('k'), n, a) <==> key_effect(o, Key::Up, n, a)),
        o.mode != AppMode::Search ==> (key_effect(o, Key::Char('j'), n, a) <==> key_effect(o, Key::Down, n, a)),
        o.mode != AppMode::Search ==> (key_effect(o, Key::Char('q'), n, a) <==> key_effect(o, Key::Esc, n, a)),
        o.mode == AppMode::List ==> (key_effect(o, Key::Right, n, a) <==> key_effect(o, Key::Enter, n, a)),
        o.mode == AppMode::List ==> (key_effect(o, Key::Left, n, a) <==> key_effect(o, Key::Backspace, n, a)),
        o.mode == AppMode::List ==> (key_effect(o, Key::Char('='), n, a) <==> key_effect(o, Key::Char('+'), n, a)),
        o.mode == AppMode::List ==> (key_effect(o, Key::Char('_'), n, a) <==> key_effect(o, Key::Char('-'), n, a)),
        !o.scanning && o.mode == AppMode::List && key_effect(o, Key::Up, n, a) ==> {
            let len = o.current_entries@.len();
            let i: int = match o.selected {
                Some(s) => s as int,
                None => 0,
            };
            &&& n.selected == Some(
                (if i == 0 {
                    if len == 0 {
                        0
                    } else {
                        len - 1
                    }
                } else {
                    i - 1
                }) as usize,
            )
            &&& n == (AppUi { selected: n.selected, ..o })
            &&& a == UiAction::Nothing
        },
        !o.scanning && o.mode == AppMode::List && key_effect(o, Key::Down, n, a) ==> {
            let len = o.current_entries@.len();
            let i: int = match o.selected {
                Some(s) => s as int,
                None => 0,
            };
            &&& n.selected == Some((if i + 1 >= len { 0 } else { i + 1 }) as usize)
            &&& n == (AppUi { selected: n.selected, ..o })
            &&& a == UiAction::Nothing
        },
{
    assert(o.current_entries.len() == o.current_entries@.len());
}

/// Raising the refresh rate and lowering it again gives it back, where it
/// lies between 100 ms and 9900 ms.
pub proof fn lemma_raise_then_lower(o: AppUi, m: AppUi, n: AppUi)
    requires
        100 <= o.refresh_rate <= 9900,
        raising_rate(o, m, UiAction::Nothing),
        lowering_rate(m, n, UiAction::Nothing),
    ensures
        n == o,
{
}

/// No two themes share a name: they differ in their first letter, except
/// "dark" and "dracula", which differ in length.
proof fn lemma_theme_names_distinct(k: int, j: int)
    requires
        0 <= k < j < THEME_COUNT,
    ensures
        theme_names()[k] != theme_names()[j],
{
    reveal_strlit("dark");
    reveal_strlit("light");
    reveal_strlit("gruvbox");
    reveal_strlit("monokai");
    reveal_strlit("solarized");
    reveal_strlit("nord");
    reveal_strlit("catppuccin");
    reveal_strlit("dracula");
    reveal_strlit("tokyo-night");
    reveal_strlit("ayu-mirage");
    let n = theme_names();
    assert(n[k][0] != n[j][0] || n[k].len() != n[j].len());
}

proof fn lemma_position_of_theme(j: int)
    requires
        0 <= j < THEME_COUNT,
    ensures
        position_in(theme_names(), theme_names()[j]) == Some(j),
{
    let n = theme_names();
    assert forall|k: int| 0 <= k < j implies #[trigger] n[k] != n[j] by {
        lemma_theme_names_distinct(k, j);
    }
    lemma_position_in(n, n[j], j);
    assert(n.skip(j)[0] == n[j]);
}

/// Step `j` of `ns` takes the theme after that of step `j - 1`.
spec fn theme_step(ns: Seq<Seq<char>>, j: int) -> bool {
    ns[j + 1] == theme_names()[next_theme_index(ns[j])]
}

proof fn lemma_theme_steps(ns: Seq<Seq<char>>, i0: int, k: int)
    requires
        ns.len() == THEME_COUNT + 1,
        0 <= i0 < THEME_COUNT,
        0 <= k <= THEME_COUNT,
        ns[0] == theme_names()[i0],
        forall|j: int| 0 <= j < THEME_COUNT ==> #[trigger] theme_step(ns, j),
    ensures
        ns[k] == theme_names()[(i0 + k) % (THEME_COUNT as int)],
    decreases k,
{
    if k > 0 {
        lemma_theme_steps(ns, i0, k - 1);
        let here = (i0 + k - 1) % (THEME_COUNT as int);
        lemma_position_of_theme(here);
        assert(theme_step(ns, k - 1));
        assert((here + 1) % (THEME_COUNT as int) == (i0 + k) % (THEME_COUNT as int));
    } else {
        assert(i0 % (THEME_COUNT as int) == i0);
    }
}

/// Taking the next theme ten times comes back to the theme one started from,
/// where that is one of the ten.
pub proof fn lemma_theme_cycle(states: Seq<AppUi>)
    requires
        states.len() == THEME_COUNT + 1,
        position_in(theme_names(), states[0].theme_name@) is Some,
        forall|k: int| 0 <= k < THEME_COUNT ==> cycling_theme(#[trigger] states[k], states[k + 1], UiAction::SaveTheme),
    ensures
        states[THEME_COUNT as int].theme_name@ == states[0].theme_name@,
        states[THEME_COUNT as int].theme == theme_for(states[0].theme_name@),
{
    let ns = Seq::new(states.len(), |k: int| states[k].theme_name@);
    assert forall|j: int| 0 <= j < THEME_COUNT implies #[trigger] theme_step(ns, j) by {
        assert(cycling_theme(states[j], states[j + 1], UiAction::SaveTheme));
    }
    let i0 = position_in(theme_names(), states[0].theme_name@).unwrap();
    lemma_position_bounds(theme_names(), states[0].theme_name@);
    lemma_theme_steps(ns, i0, THEME_COUNT as int);
    assert((i0 + THEME_COUNT) % (THEME_COUNT as int) == i0);
    assert(cycling_theme(states[THEME_COUNT - 1], states[THEME_COUNT as int], UiAction::SaveTheme));
}

} // verus!
