//! Decision logic behind the menus: which selection each abstract input
//! yields. Drawing glyphs and reading raw keys belong to the front end;
//! the simulation only resolves choices.
use vstd::prelude::*;
use crate::components::Point;
use crate::player::InputEvent;
use crate::world::{slot_handle, Entity, Slot, World};

verus! {

#[derive(Clone, Copy, PartialEq, Eq, Structural, Debug)]
pub enum ItemMenuResult {
    Cancel,
    NoResponse,
    Selected,
}

#[derive(Clone, Copy, PartialEq, Eq, Structural, Debug)]
pub enum ItemActionSelection {
    Cancel,
    NoSelection,
    Used,
    Dropped,
    Unequipped,
}

#[derive(Clone, Copy, PartialEq, Eq, Structural, Debug)]
pub enum MainMenuSelection {
    NewGame,
    LoadGame,
    Exit,
}

#[derive(Clone, Copy, PartialEq, Eq, Structural, Debug)]
pub enum MainMenuResult {
    NoSelection { selected: MainMenuSelection },
    Selection { selected: MainMenuSelection },
}

#[derive(Clone, Copy, PartialEq, Eq, Structural, Debug)]
pub enum GameOverResult {
    NoSelection,
    QuitToMenu,
}

/// The entry above `sel`, wrapping from the top to the bottom.
pub open spec fn menu_prev(sel: MainMenuSelection) -> MainMenuSelection {
    match sel {
        MainMenuSelection::NewGame => MainMenuSelection::Exit,
        MainMenuSelection::LoadGame => MainMenuSelection::NewGame,
        MainMenuSelection::Exit => MainMenuSelection::LoadGame,
    }
}

/// The entry below `sel`, wrapping from the bottom to the top.
pub open spec fn menu_next(sel: MainMenuSelection) -> MainMenuSelection {
    match sel {
        MainMenuSelection::NewGame => MainMenuSelection::LoadGame,
        MainMenuSelection::LoadGame => MainMenuSelection::Exit,
        MainMenuSelection::Exit => MainMenuSelection::NewGame,
    }
}

/// Resolves one input against the main menu: up and down move the
/// highlight with wrap-around, confirm selects it, escape selects exit,
/// anything else leaves the menu as it stands.
pub fn main_menu(selection: MainMenuSelection, input: Option<InputEvent>) -> (r: MainMenuResult)
    ensures
        r == match input {
            None => MainMenuResult::NoSelection { selected: selection },
            Some(ev) => match ev {
                InputEvent::Escape => MainMenuResult::Selection {
                    selected: MainMenuSelection::Exit,
                },
                InputEvent::MenuUp => MainMenuResult::NoSelection {
                    selected: menu_prev(selection),
                },
                InputEvent::MenuDown => MainMenuResult::NoSelection {
                    selected: menu_next(selection),
                },
                InputEvent::Confirm => MainMenuResult::Selection { selected: selection },
                _ => MainMenuResult::NoSelection { selected: selection },
            },
        },
{
    match input {
        None => MainMenuResult::NoSelection { selected: selection },
        Some(ev) => match ev {
            InputEvent::Escape => MainMenuResult::Selection { selected: MainMenuSelection::Exit },
            InputEvent::MenuUp => {
                let prev = match selection {
                    MainMenuSelection::NewGame => MainMenuSelection::Exit,
                    MainMenuSelection::LoadGame => MainMenuSelection::NewGame,
                    MainMenuSelection::Exit => MainMenuSelection::LoadGame,
                };
                MainMenuResult::NoSelection { selected: prev }
            },
            InputEvent::MenuDown => {
                let next = match selection {
                    MainMenuSelection::NewGame => MainMenuSelection::LoadGame,
                    MainMenuSelection::LoadGame => MainMenuSelection::Exit,
                    MainMenuSelection::Exit => MainMenuSelection::NewGame,
                };
                MainMenuResult::NoSelection { selected: next }
            },
            InputEvent::Confirm => MainMenuResult::Selection { selected: selection },
            _ => MainMenuResult::NoSelection { selected: selection },
        },
    }
}

/// The handles of the live items among the first `n` slots carried in
/// `owner`'s backpack, in slot order.
pub open spec fn backpack_list(w: Seq<Slot>, owner: Entity, n: int) -> Seq<Entity>
    decreases n,
{
    if n <= 0 {
        Seq::empty()
    } else {
        let rest = backpack_list(w, owner, n - 1);
        let s = w[n - 1];
        if s.alive && (s.in_backpack matches Some(b) && b.owner == owner) {
            rest.push(slot_handle(w, n - 1))
        } else {
            rest
        }
    }
}

/// The handles of the live items among the first `n` slots worn by
/// `owner`, in slot order.
pub open spec fn equipped_list(w: Seq<Slot>, owner: Entity, n: int) -> Seq<Entity>
    decreases n,
{
    if n <= 0 {
        Seq::empty()
    } else {
        let rest = equipped_list(w, owner, n - 1);
        let s = w[n - 1];
        if s.alive && (s.equipped matches Some(eq) && eq.owner == owner) {
            rest.push(slot_handle(w, n - 1))
        } else {
            rest
        }
    }
}

/// The live items carried by `owner` in its backpack, in slot order.
pub fn backpack_items(world: &World, owner: Entity) -> (r: Vec<Entity>)
    ensures
        r@ == backpack_list(world@, owner, world@.len() as int),
        forall|k: int| #![trigger r@[k]] 0 <= k < r@.len() ==> world.valid(r@[k]) && (
        world@[r@[k].idx as int].in_backpack matches Some(b) && b.owner == owner),
{
    let mut r: Vec<Entity> = Vec::new();
    let n = world.slots.len();
    let mut i: usize = 0;
    while i < n
        invariant
            n == world@.len(),
            i <= n,
            r@ == backpack_list(world@, owner, i as int),
            forall|k: int| #![trigger r@[k]] 0 <= k < r@.len() ==> world.valid(r@[k]) && (
            world@[r@[k].idx as int].in_backpack matches Some(b) && b.owner == owner),
        decreases n - i,
    {
        let s = &world.slots[i];
        if s.alive && match &s.in_backpack {
            Some(b) => b.owner == owner,
            None => false,
        } {
            let gen = s.gen;
            r.push(Entity { idx: i, gen });
        }
        i += 1;
    }
    r
}

/// The live items `owner` has equipped, in slot order.
pub fn equipped_items(world: &World, owner: Entity) -> (r: Vec<Entity>)
    ensures
        r@ == equipped_list(world@, owner, world@.len() as int),
        forall|k: int| #![trigger r@[k]] 0 <= k < r@.len() ==> world.valid(r@[k]) && (
        world@[r@[k].idx as int].equipped matches Some(eq) && eq.owner == owner),
{
    let mut r: Vec<Entity> = Vec::new();
    let n = world.slots.len();
    let mut i: usize = 0;
    while i < n
        invariant
            n == world@.len(),
            i <= n,
            r@ == equipped_list(world@, owner, i as int),
            forall|k: int| #![trigger r@[k]] 0 <= k < r@.len() ==> world.valid(r@[k]) && (
            world@[r@[k].idx as int].equipped matches Some(eq) && eq.owner == owner),
        decreases n - i,
    {
        let s = &world.slots[i];
        if s.alive && match &s.equipped {
            Some(eq) => eq.owner == owner,
            None => false,
        } {
            let gen = s.gen;
            r.push(Entity { idx: i, gen });
        }
        i += 1;
    }
    r
}

/// Resolves one input against the inventory screen: a selection index
/// picks among the backpack items first and the equipped items after
/// them; escape cancels; anything else waits. A selected entity is
/// always a live item the player carries or wears.
pub fn show_inventory(world: &mut World, player: Entity, input: Option<InputEvent>) -> (r: (
    ItemMenuResult,
    Option<Entity>,
))
    ensures
        *final(world) == *old(world),
        r.0 == ItemMenuResult::Selected ==> (r.1 matches Some(item) && old(world).valid(item)
            && ((old(world)@[item.idx as int].in_backpack matches Some(b) && b.owner == player)
            || (old(world)@[item.idx as int].equipped matches Some(eq) && eq.owner == player))),
        r.0 != ItemMenuResult::Selected ==> r.1 is None,
        input is None ==> r.0 == ItemMenuResult::NoResponse,
        input == Some(InputEvent::Escape) ==> r.0 == ItemMenuResult::Cancel,
        // A selection index picks the carried items first and the worn
        // ones after them, exactly.
        ({
            let w = old(world)@;
            let bl = backpack_list(w, player, w.len() as int);
            let el = equipped_list(w, player, w.len() as int);
            let sel = input->Some_0->Select_0;
            (input is Some && input->Some_0 is Select) ==> r == (if (sel as int) < bl.len() {
                (ItemMenuResult::Selected, Some(bl[sel as int]))
            } else if (sel as int) < bl.len() + el.len() {
                (ItemMenuResult::Selected, Some(el[sel as int - bl.len()]))
            } else {
                (ItemMenuResult::NoResponse, None::<Entity>)
            })
        }),
{
    let useable = backpack_items(world, player);
    let equipped = equipped_items(world, player);
    match input {
        None => (ItemMenuResult::NoResponse, None),
        Some(ev) => match ev {
            InputEvent::Escape => (ItemMenuResult::Cancel, None),
            InputEvent::Select(sel) => {
                let sel = sel as usize;
                if sel < useable.len() {
                    (ItemMenuResult::Selected, Some(useable[sel]))
                } else if sel - useable.len() < equipped.len() {
                    (ItemMenuResult::Selected, Some(equipped[sel - useable.len()]))
                } else {
                    (ItemMenuResult::NoResponse, None)
                }
            },
            _ => (ItemMenuResult::NoResponse, None),
        },
    }
}

/// Resolves one input against the item-action screen: the primary action
/// uses a carried item or unequips a worn one, the secondary drops it,
/// escape cancels.
pub fn show_item_actions(world: &mut World, item: Entity, input: Option<InputEvent>) -> (r:
    ItemActionSelection)
    ensures
        *final(world) == *old(world),
        input is None ==> r == ItemActionSelection::NoSelection,
        input == Some(InputEvent::Escape) ==> r == ItemActionSelection::Cancel,
        r == ItemActionSelection::Used ==> old(world).valid(item) && old(
            world,
        )@[item.idx as int].in_backpack is Some,
        r == ItemActionSelection::Unequipped ==> old(world).valid(item) && old(
            world,
        )@[item.idx as int].equipped is Some,
        (input == Some(InputEvent::Primary) && old(world).valid(item) && old(
            world,
        )@[item.idx as int].in_backpack is Some) ==> r == ItemActionSelection::Used,
        (input == Some(InputEvent::Primary) && old(world).valid(item) && old(
            world,
        )@[item.idx as int].in_backpack is None && old(world)@[item.idx as int].equipped is Some)
            ==> r == ItemActionSelection::Unequipped,
        input == Some(InputEvent::Secondary) ==> r == ItemActionSelection::Dropped,
{
    let in_backpack = world.is_valid(item) && world.slots[item.idx].in_backpack.is_some();
    let in_equip = world.is_valid(item) && world.slots[item.idx].equipped.is_some();
    match input {
        None => ItemActionSelection::NoSelection,
        Some(ev) => match ev {
            InputEvent::Escape => ItemActionSelection::Cancel,
            InputEvent::Primary => {
                if in_backpack {
                    ItemActionSelection::Used
                } else if in_equip {
                    ItemActionSelection::Unequipped
                } else {
                    ItemActionSelection::NoSelection
                }
            },
            InputEvent::Secondary => ItemActionSelection::Dropped,
            _ => ItemActionSelection::NoSelection,
        },
    }
}

/// The point appears among the first `n` visible tiles.
pub open spec fn sees_point_upto(tiles: Seq<Point>, pt: Point, n: int) -> bool
    decreases n,
{
    if n <= 0 {
        false
    } else {
        tiles[n - 1] == pt || sees_point_upto(tiles, pt, n - 1)
    }
}

/// The point lies in the player's visible set.
pub open spec fn player_sees(w: Seq<Slot>, player: Entity, pt: Point) -> bool {
    let tiles = w[player.idx as int].viewshed->Some_0.visible_tiles@;
    sees_point_upto(tiles, pt, tiles.len() as int)
}

/// The truncated Euclidean distance between the points is at most
/// `range`: the squared distance is below `(range + 1)` squared.
pub open spec fn within_aim_range(a: Point, b: Point, range: int) -> bool {
    &&& range >= 0
    &&& (a.x - b.x) * (a.x - b.x) + (a.y - b.y) * (a.y - b.y) < (range + 1) * (range + 1)
}

/// Resolves one input against the targeting overlay: a clicked point is
/// selected exactly when it lies in the player's view with its distance
/// from the player truncating to at most `range`; an invalid click or
/// escape cancels, anything else waits.
pub fn ranged_target(
    world: &mut World,
    player: Entity,
    player_pos: Point,
    range: i32,
    input: Option<InputEvent>,
) -> (r: (ItemMenuResult, Option<Point>))
    ensures
        *final(world) == *old(world),
        ({
            let w = old(world)@;
            if !(old(world).valid(player) && w[player.idx as int].viewshed is Some) {
                r == (ItemMenuResult::Cancel, None::<Point>)
            } else {
                match input {
                    None => r == (ItemMenuResult::NoResponse, None::<Point>),
                    Some(ev) => match ev {
                        InputEvent::Escape => r == (ItemMenuResult::Cancel, None::<Point>),
                        InputEvent::Target(pt) => if player_sees(w, player, pt)
                            && within_aim_range(player_pos, pt, range as int) {
                            r == (ItemMenuResult::Selected, Some(pt))
                        } else {
                            r == (ItemMenuResult::Cancel, None::<Point>)
                        },
                        _ => r == (ItemMenuResult::NoResponse, None::<Point>),
                    },
                }
            }
        }),
{
    if !world.is_valid(player) || world.slots[player.idx].viewshed.is_none() {
        return (ItemMenuResult::Cancel, None);
    }
    match input {
        None => (ItemMenuResult::NoResponse, None),
        Some(ev) => match ev {
            InputEvent::Escape => (ItemMenuResult::Cancel, None),
            InputEvent::Target(pt) => {
                // The point must be visible to the player and in range.
                let mut visible = false;
                let tiles_len = match &world.slots[player.idx].viewshed {
                    Some(v) => v.visible_tiles.len(),
                    None => 0,
                };
                let mut k: usize = 0;
                while k < tiles_len
                    invariant
                        *world == *old(world),
                        k <= tiles_len,
                        player.idx < world@.len(),
                        world@[player.idx as int].viewshed is Some,
                        tiles_len == world@[player.idx as int].viewshed->Some_0.visible_tiles@.len(),
                        visible == sees_point_upto(
                            world@[player.idx as int].viewshed->Some_0.visible_tiles@,
                            pt,
                            k as int,
                        ),
                    decreases tiles_len - k,
                {
                    let t = match &world.slots[player.idx].viewshed {
                        Some(v) => v.visible_tiles[k],
                        None => Point { x: 0, y: 0 },
                    };
                    if t.x == pt.x && t.y == pt.y {
                        visible = true;
                    }
                    k += 1;
                }
                if range < 0 {
                    return (ItemMenuResult::Cancel, None);
                }
                let dx: i64 = player_pos.x as i64 - pt.x as i64;
                let dy: i64 = player_pos.y as i64 - pt.y as i64;
                proof {
                    let dxi: int = dx as int;
                    let dyi: int = dy as int;
                    let ri: int = range as int + 1;
                    assert(0 <= dxi * dxi <= 0x1_0000_0000_0000_0000) by (nonlinear_arith)
                        requires -0x1_0000_0000 <= dxi <= 0x1_0000_0000;
                    assert(0 <= dyi * dyi <= 0x1_0000_0000_0000_0000) by (nonlinear_arith)
                        requires -0x1_0000_0000 <= dyi <= 0x1_0000_0000;
                    assert(0 <= ri * ri <= 0x1_0000_0000_0000_0000) by (nonlinear_arith)
                        requires 0 <= ri <= 0x1_0000_0000;
                }
                let d2: i128 = (dx as i128) * (dx as i128) + (dy as i128) * (dy as i128);
                let r2: i128 = (range as i128 + 1) * (range as i128 + 1);
                if visible && d2 < r2 {
                    (ItemMenuResult::Selected, Some(pt))
                } else {
                    (ItemMenuResult::Cancel, None)
                }
            },
            _ => (ItemMenuResult::NoResponse, None),
        },
    }
}

/// Resolves one input against the game-over screen: any key returns to
/// the main menu.
pub fn game_over(input: Option<InputEvent>) -> (r: GameOverResult)
    ensures
        r == (match input {
            None => GameOverResult::NoSelection,
            Some(_) => GameOverResult::QuitToMenu,
        }),
{
    match input {
        None => GameOverResult::NoSelection,
        Some(_) => GameOverResult::QuitToMenu,
    }
}

} // verus!
