//! What the tray shows of a status.
use vstd::prelude::*;
use vstd::string::*;

use crate::status::{State, Status, StatusView};
use crate::text::{count, decimal};

verus! {

/// The width and the height of the icon.
pub const ICON_SIZE: u32 = 32;

/// The colour of a state: green, red or gray.
pub open spec fn state_colour(state: State) -> (u8, u8, u8) {
    match state {
        State::Legal => (40, 200, 80),
        State::Illegal => (220, 50, 50),
        State::Unknown => (150, 150, 150),
    }
}

/// Whether a pixel of the icon lies on its border.
pub open spec fn on_border(x: int, y: int) -> bool {
    x == 0 || y == 0 || x == ICON_SIZE - 1 || y == ICON_SIZE - 1
}

/// The red, green, blue and alpha of a pixel: the colour of the state, darker
/// on the border so that the edge is visible against any background.
pub open spec fn pixel(state: State, x: int, y: int) -> Seq<u8> {
    let (r, g, b) = state_colour(state);
    if on_border(x, y) {
        seq![r / 2, g / 2, b / 2, 255]
    } else {
        seq![r, g, b, 255]
    }
}

/// The first `n` pixels of the icon, row by row.
pub open spec fn pixels(state: State, n: int) -> Seq<u8>
    decreases n,
{
    if n <= 0 {
        Seq::empty()
    } else {
        pixels(state, n - 1) + pixel(state, (n - 1) % ICON_SIZE as int, (n - 1) / ICON_SIZE as int)
    }
}

fn colour_of(state: State) -> (c: (u8, u8, u8))
    ensures
        c == state_colour(state),
{
    match state {
        State::Legal => (40, 200, 80),
        State::Illegal => (220, 50, 50),
        State::Unknown => (150, 150, 150),
    }
}

/// The pixels of the solid-colour icon of a state.
pub fn make_icon(state: State) -> (rgba: Vec<u8>)
    ensures
        rgba@ == pixels(state, ICON_SIZE * ICON_SIZE),
        rgba@.len() == 4 * ICON_SIZE * ICON_SIZE,
{
    let (r, g, b) = colour_of(state);
    let mut rgba: Vec<u8> = Vec::new();
    let mut n: u32 = 0;
    while n < 1024
        invariant
            n <= 1024,
            ICON_SIZE == 32,
            (r, g, b) == state_colour(state),
            rgba@ == pixels(state, n as int),
            rgba@.len() == 4 * n,
        decreases 1024 - n,
    {
        let x: u32 = n % 32;
        let y: u32 = n / 32;
        let ghost before = rgba@;
        if x == 0 || y == 0 || x == 31 || y == 31 {
            rgba.push(r / 2);
            rgba.push(g / 2);
            rgba.push(b / 2);
            rgba.push(255);
        } else {
            rgba.push(r);
            rgba.push(g);
            rgba.push(b);
            rgba.push(255);
        }
        assert(rgba@ =~= before + pixel(state, x as int, y as int));
        n += 1;
    }
    rgba
}

/// The tooltip of a status.
pub open spec fn tooltip(status: StatusView) -> Seq<char> {
    match status.state {
        State::Legal => "AetherLink — LEGAL\n"@ + status.project_path,
        State::Illegal => "AetherLink — "@ + decimal(status.violation_count as nat)
            + " VIOLATION"@ + (if status.violation_count == 1 {
            ""@
        } else {
            "S"@
        }) + "\n"@ + status.project_path,
        State::Unknown => "AetherLink — no scans yet"@,
    }
}

/// The tooltip of a status.
pub fn format_tooltip(status: &Status) -> (s: String)
    ensures
        s@ == tooltip(status@),
{
    match status.state {
        State::Legal => {
            let mut s = "AetherLink — LEGAL\n".to_owned();
            s.append(&status.project_path);
            s
        },
        State::Illegal => {
            let mut s = "AetherLink — ".to_owned();
            s.append(&count(status.violation_count));
            s.append(" VIOLATION");
            if status.violation_count == 1 {
                s.append("");
            } else {
                s.append("S");
            }
            s.append("\n");
            s.append(&status.project_path);
            s
        },
        State::Unknown => "AetherLink — no scans yet".to_owned(),
    }
}

/// Whether a status is shown after the last one that was: only where the state
/// has changed.
pub fn is_news(last: Option<State>, state: State) -> (r: bool)
    ensures
        r == (last != Some(state)),
{
    match last {
        Some(s) => s != state,
        None => true,
    }
}

/// The picture has four bytes for each pixel, row by row: the colour of the
/// state, half as bright on the border, and no transparency.
pub proof fn law_every_pixel_has_its_place(state: State, n: int, x: int, y: int)
    requires
        0 <= x < ICON_SIZE,
        0 <= y,
        y * ICON_SIZE + x < n,
    ensures
        pixels(state, n).len() == 4 * n,
        ({
            let at = 4 * (y * ICON_SIZE + x);
            let (r, g, b) = state_colour(state);
            let dim = if x == 0 || y == 0 || x == ICON_SIZE - 1 || y == ICON_SIZE - 1 {
                2u8
            } else {
                1u8
            };
            &&& pixels(state, n)[at] == r / dim
            &&& pixels(state, n)[at + 1] == g / dim
            &&& pixels(state, n)[at + 2] == b / dim
            &&& pixels(state, n)[at + 3] == 255
        }),
    decreases n,
{
    let size = ICON_SIZE as int;
    let k = y * size + x;
    lemma_pixels_len(state, n - 1);
    lemma_pixels_len(state, n);
    if k == n - 1 {
        assert(k % size == x && k / size == y) by (nonlinear_arith)
            requires
                k == y * size + x,
                0 <= x < size,
                0 <= y,
        ;
        let before = pixels(state, n - 1);
        let last = pixel(state, x, y);
        assert(pixels(state, n) == before + last);
        assert(pixels(state, n)[4 * k] == last[0]);
        assert(pixels(state, n)[4 * k + 1] == last[1]);
        assert(pixels(state, n)[4 * k + 2] == last[2]);
        assert(pixels(state, n)[4 * k + 3] == last[3]);
    } else {
        law_every_pixel_has_its_place(state, n - 1, x, y);
        let before = pixels(state, n - 1);
        assert(pixels(state, n)[4 * k] == before[4 * k]);
        assert(pixels(state, n)[4 * k + 1] == before[4 * k + 1]);
        assert(pixels(state, n)[4 * k + 2] == before[4 * k + 2]);
        assert(pixels(state, n)[4 * k + 3] == before[4 * k + 3]);
    }
}

proof fn lemma_pixels_len(state: State, n: int)
    requires
        0 <= n,
    ensures
        pixels(state, n).len() == 4 * n,
    decreases n,
{
    if n > 0 {
        lemma_pixels_len(state, n - 1);
    }
}

/// The tooltip gives the project, and for one that is not legal the number of its
/// violations, with the noun in the plural but for one.
pub proof fn law_tooltip_gives_the_number(status: StatusView)
    ensures
        status.state == State::Legal ==> tooltip(status) == "AetherLink — LEGAL\n"@
            + status.project_path,
        status.state == State::Illegal && status.violation_count == 1 ==> tooltip(status)
            == "AetherLink — "@ + decimal(1) + " VIOLATION"@ + (seq!['\n'] + status.project_path),
        status.state == State::Illegal && status.violation_count != 1 ==> tooltip(status)
            == "AetherLink — "@ + decimal(status.violation_count as nat) + " VIOLATION"@ + (seq![
            'S',
            '\n',
        ] + status.project_path),
        status.state == State::Unknown ==> tooltip(status) == "AetherLink — no scans yet"@,
{
    reveal_strlit("");
    reveal_strlit("S");
    reveal_strlit("\n");
    let head = "AetherLink — "@ + decimal(status.violation_count as nat) + " VIOLATION"@;
    lemma_endings(head, status.project_path);
}

proof fn lemma_endings(head: Seq<char>, path: Seq<char>)
    ensures
        head + ""@ + "\n"@ + path == head + (seq!['\n'] + path),
        head + "S"@ + "\n"@ + path == head + (seq!['S', '\n'] + path),
{
    reveal_strlit("");
    reveal_strlit("S");
    reveal_strlit("\n");
    assert(head + ""@ + "\n"@ + path =~= head + (seq!['\n'] + path));
    assert(head + "S"@ + "\n"@ + path =~= head + (seq!['S', '\n'] + path));
}

} // verus!
