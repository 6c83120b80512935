//! What the side panel and the mouse-over tooltips show: the texts and the lists, worked
//! out from the world; drawing them is left to the caller.

use vstd::prelude::*;
use crate::components::{Attributes, Entity, HungerState, Pools};
use crate::logger::{NamedColor, decimal, int_to_string};
use crate::world::{World, WorldView};

verus! {

fn join3(a: &str, b: &str, c: &str) -> (s: String)
    ensures
        s@ == a@ + b@ + c@,
{
    let mut s = String::from_str(a);
    s.append(b);
    s.append(c);
    s
}

/// `label`, then `current/max`: the panel's health and mana lines.
pub fn pool_text(label: &str, current: i32, max: i32) -> (s: String)
    ensures
        s@ == label@ + decimal(current as int) + "/"@ + decimal(max as int),
{
    let a = int_to_string(current);
    let b = int_to_string(max);
    let mut s = join3(label, a.as_str(), "/");
    s.append(b.as_str());
    proof { reveal_strlit("/"); }
    s
}

/// The panel's first three lines: health, mana and level.
pub fn pools_text(p: &Pools) -> (lines: (String, String, String))
    ensures
        lines.0@ == "Health: "@ + decimal(p.hit_points.current as int) + "/"@ + decimal(p.hit_points.max as int),
        lines.1@ == "Mana: "@ + decimal(p.mana.current as int) + "/"@ + decimal(p.mana.max as int),
        lines.2@ == "Level: "@ + decimal(p.level as int),
{
    let h = pool_text("Health: ", p.hit_points.current, p.hit_points.max);
    let m = pool_text("Mana: ", p.mana.current, p.mana.max);
    let lv = int_to_string(p.level);
    let mut l = String::from_str("Level: ");
    l.append(lv.as_str());
    (h, m, l)
}

/// How far into the current level the experience bar is filled: experience beyond the
/// thousand points each earlier level took.
pub open spec fn spec_xp_progress(p: Pools) -> int {
    p.xp - (p.level - 1) * 1000
}

pub fn xp_progress(p: &Pools) -> (x: i64)
    ensures
        x == spec_xp_progress(*p),
{
    p.xp as i64 - (p.level as i64 - 1) * 1000
}

/// The hunger notice at the bottom of the panel, with its colour; none when the player
/// is neither well fed nor hungry.
pub open spec fn spec_hunger_label(s: HungerState) -> Option<(NamedColor, Seq<char>)> {
    match s {
        HungerState::WellFed => Some((NamedColor::Green, "Well Fed"@)),
        HungerState::Normal => None,
        HungerState::Hungry => Some((NamedColor::Orange, "Hungry"@)),
        HungerState::Starving => Some((NamedColor::Red, "Starving"@)),
    }
}

pub fn hunger_label(s: HungerState) -> (r: Option<(NamedColor, String)>)
    ensures
        r matches Some((c, t)) ==> spec_hunger_label(s) == Some((c, t@)),
        r is None ==> spec_hunger_label(s) is None,
{
    match s {
        HungerState::WellFed => Some((NamedColor::Green, String::from_str("Well Fed"))),
        HungerState::Normal => None,
        HungerState::Hungry => Some((NamedColor::Orange, String::from_str("Hungry"))),
        HungerState::Starving => Some((NamedColor::Red, String::from_str("Starving"))),
    }
}

/// The colour an attribute's value is shown in: red below its base, green above it,
/// white otherwise.
pub open spec fn spec_attribute_color(modifiers: i32) -> NamedColor {
    if modifiers < 0 { NamedColor::Red } else if modifiers == 0 { NamedColor::White } else { NamedColor::Green }
}

pub fn attribute_color(modifiers: i32) -> (c: NamedColor)
    ensures
        c == spec_attribute_color(modifiers),
{
    if modifiers < 0 { NamedColor::Red } else if modifiers == 0 { NamedColor::White } else { NamedColor::Green }
}

/// The items among the first `n` entities that the player wears, in entity order.
pub open spec fn worn_upto(w: WorldView, n: nat) -> Seq<Entity>
    decreases n,
{
    if n == 0 {
        Seq::empty()
    } else {
        let prev = worn_upto(w, (n - 1) as nat);
        let e = w.ents[n - 1];
        if e.alive && (e.equipped matches Some(q) && q.owner == w.player) { prev.push((n - 1) as Entity) } else { prev }
    }
}

/// Whether entity `k` is a consumable that someone carries.
pub open spec fn carried_consumable(e: crate::world::Ent) -> bool {
    e.alive && e.consumable is Some && e.in_backpack is Some
}

/// How many of the first `n` entities are consumables that someone carries.
pub open spec fn carried_count(w: WorldView, n: nat) -> nat
    decreases n,
{
    if n == 0 {
        0
    } else {
        carried_count(w, (n - 1) as nat) + if carried_consumable(w.ents[n - 1]) { 1nat } else { 0nat }
    }
}

/// The consumables among the first `n` entities that the panel lists: those the player
/// carries, each with its number, which is its place (from 1) among the consumables
/// anyone carries; only the first ten places are shown.
pub open spec fn hotkeys_upto(w: WorldView, n: nat) -> Seq<(Entity, usize)>
    decreases n,
{
    if n == 0 {
        Seq::empty()
    } else {
        let prev = hotkeys_upto(w, (n - 1) as nat);
        let e = w.ents[n - 1];
        let place = carried_count(w, (n - 1) as nat);
        if carried_consumable(e) && e.in_backpack->0.owner == w.player && place < 10 {
            prev.push(((n - 1) as Entity, (place + 1) as usize))
        } else {
            prev
        }
    }
}

/// The items the panel lists under the attributes: what the player wears, then the
/// carried consumables with their numbers.
pub fn panel_items(w: &World) -> (r: (Vec<Entity>, Vec<(Entity, usize)>))
    requires
        w.wf(),
    ensures
        r.0@ == worn_upto(w.view(), w.view().ents.len()),
        r.1@ == hotkeys_upto(w.view(), w.view().ents.len()),
{
    let mut worn: Vec<Entity> = Vec::new();
    let mut keys: Vec<(Entity, usize)> = Vec::new();
    let n = w.ents.len();
    let mut place: usize = 0;
    let mut k: usize = 0;
    while k < n
        invariant
            k <= n,
            n == w.view().ents.len(),
            w.wf(),
            place == carried_count(w.view(), k as nat),
            place <= k,
            worn@ == worn_upto(w.view(), k as nat),
            keys@ == hotkeys_upto(w.view(), k as nat),
        decreases n - k,
    {
        let e = w.ents[k];
        if e.alive {
            if let Some(q) = e.equipped {
                if q.owner == w.player {
                    worn.push(k);
                }
            }
            if e.consumable.is_some() {
                if let Some(b) = e.in_backpack {
                    if b.owner == w.player && place < 10 {
                        keys.push((k, place + 1));
                    }
                    place = place + 1;
                }
            }
        }
        k = k + 1;
    }
    (worn, keys)
}

/// How a weapon's damage bonus reads after its dice: nothing for 0, the number with its
/// sign otherwise.
pub open spec fn bonus_text(bonus: i32) -> Seq<char> {
    if bonus < 0 { decimal(bonus as int) } else if bonus == 0 { Seq::empty() } else { "+"@ + decimal(bonus as int) }
}

/// The line the panel shows for a wielded weapon called `name`: its dice, its damage
/// bonus and, for a ranged weapon, its range and the keys that fire it.
pub open spec fn spec_weapon_text(name: Seq<char>, n_dice: i32, die_type: i32, bonus: i32, range: Option<i32>) -> Seq<char> {
    let dice = "\u{2524} "@ + name + " ("@ + decimal(n_dice as int) + "d"@ + decimal(die_type as int) + bonus_text(bonus) + ")"@;
    let with_range = match range {
        Some(r) => dice + " (range: "@ + decimal(r as int) + ", F to fire, V cycle targets)"@,
        None => dice,
    };
    with_range + " \u{251c}"@
}

fn weapon_text(name: &String, wp: &crate::combat::Weapon) -> (s: String)
    ensures
        s@ == spec_weapon_text(name@, wp.damage_n_dice, wp.damage_die_type, wp.damage_bonus, wp.range),
{
    let mut s = String::from_str("\u{2524} ");
    s.append(name.as_str());
    s.append(" (");
    let nd = int_to_string(wp.damage_n_dice);
    s.append(nd.as_str());
    s.append("d");
    let dt = int_to_string(wp.damage_die_type);
    s.append(dt.as_str());
    if wp.damage_bonus < 0 {
        let b = int_to_string(wp.damage_bonus);
        s.append(b.as_str());
    } else if wp.damage_bonus > 0 {
        s.append("+");
        let b = int_to_string(wp.damage_bonus);
        s.append(b.as_str());
    }
    s.append(")");
    if let Some(r) = wp.range {
        s.append(" (range: ");
        let rt = int_to_string(r);
        s.append(rt.as_str());
        s.append(", F to fire, V cycle targets)");
    }
    s.append(" \u{251c}");
    proof {
        assert(s@ =~= spec_weapon_text(name@, wp.damage_n_dice, wp.damage_die_type, wp.damage_bonus, wp.range));
    }
    s
}

/// The weapon lines for the weapons among the first `n` entities that the player
/// wears, in entity order; each is drawn over the last.
pub open spec fn weapon_lines_upto(w: WorldView, n: nat) -> Seq<Seq<char>>
    decreases n,
{
    if n == 0 {
        Seq::empty()
    } else {
        let prev = weapon_lines_upto(w, (n - 1) as nat);
        let e = w.ents[n - 1];
        if e.alive && e.weapon is Some && (e.equipped matches Some(q) && q.owner == w.player) {
            let wp = e.weapon->0;
            prev.push(spec_weapon_text(w.names[n - 1], wp.damage_n_dice, wp.damage_die_type, wp.damage_bonus, wp.range))
        } else {
            prev
        }
    }
}

pub fn weapon_lines(w: &World) -> (r: Vec<String>)
    requires
        w.wf(),
    ensures
        crate::world::names_view(r@) == weapon_lines_upto(w.view(), w.view().ents.len()),
{
    let ghost v = w.view();
    let mut r: Vec<String> = Vec::new();
    let n = w.ents.len();
    let mut k: usize = 0;
    while k < n
        invariant
            k <= n,
            n == v.ents.len(),
            v == w.view(),
            w.wf(),
            crate::world::names_view(r@) == weapon_lines_upto(v, k as nat),
        decreases n - k,
    {
        let e = w.ents[k];
        if e.alive {
            if let (Some(wp), Some(q)) = (e.weapon, e.equipped) {
                if q.owner == w.player {
                    let t = weapon_text(&w.names[k], &wp);
                    proof { assert(v.names[k as int] == w.names@[k as int]@); }
                    let ghost before = r@;
                    r.push(t);
                    proof { crate::world::lemma_names_view_push(before, t); }
                }
            }
        }
        k = k + 1;
    }
    r
}

/// The panel's line for a known spell: its name and its mana cost.
pub open spec fn spec_spell_text(spell: (Seq<char>, i32)) -> Seq<char> {
    spell.0 + " ("@ + decimal(spell.1 as int) + ")"@
}

/// The lines of the known-spells list, in the order the spells are known.
pub fn spell_lines(w: &World) -> (r: Vec<String>)
    requires
        w.wf(),
    ensures
        crate::world::names_view(r@) == w.view().known_spells.map_values(|k: (Seq<char>, i32)| spec_spell_text(k)),
{
    let ghost ks = w.view().known_spells;
    let mut r: Vec<String> = Vec::new();
    let n = w.known_spells.len();
    let mut i: usize = 0;
    while i < n
        invariant
            i <= n,
            n == ks.len(),
            ks == w.view().known_spells,
            r@.len() == i,
            forall|j: int| 0 <= j < i ==> #[trigger] r@[j]@ == spec_spell_text(ks[j]),
        decreases n - i,
    {
        let mut s = w.known_spells[i].display_name.clone();
        s.append(" (");
        let c = int_to_string(w.known_spells[i].mana_cost);
        s.append(c.as_str());
        s.append(")");
        proof { assert(s@ =~= spec_spell_text(ks[i as int])); }
        r.push(s);
        i = i + 1;
    }
    proof {
        assert(crate::world::names_view(r@) =~= ks.map_values(|k: (Seq<char>, i32)| spec_spell_text(k)));
    }
    r
}

/// The log lines the panel has room for: the newest first, thirteen at most.
pub open spec fn spec_shown_log(log: Seq<Seq<char>>) -> Seq<Seq<char>> {
    let n = if log.len() < 13 { log.len() as int } else { 13 };
    Seq::new(n as nat, |i: int| log[log.len() - 1 - i])
}

pub fn shown_log(w: &World) -> (r: Vec<String>)
    requires
        w.wf(),
    ensures
        crate::world::names_view(r@) == spec_shown_log(w.view().log),
{
    let ghost log = w.view().log;
    let n = w.log.entries.len();
    let shown = if n < 13 { n } else { 13 };
    let mut r: Vec<String> = Vec::new();
    let mut i: usize = 0;
    while i < shown
        invariant
            i <= shown,
            shown <= n,
            n == w.log.entries@.len(),
            log == crate::world::names_view(w.log.entries@),
            r@.len() == i,
            forall|j: int| 0 <= j < i ==> #[trigger] r@[j]@ == log[n - 1 - j],
        decreases shown - i,
    {
        let s = w.log.entries[n - 1 - i].clone();
        r.push(s);
        i = i + 1;
    }
    proof {
        assert(crate::world::names_view(r@) =~= spec_shown_log(log));
    }
    r
}

// ----- tooltips -----

/// The lines of one tooltip box.
pub struct Tooltip {
    lines: Vec<String>,
}

impl Tooltip {
    pub closed spec fn view(&self) -> Seq<Seq<char>> {
        crate::world::names_view(self.lines@)
    }

    pub fn new() -> (t: Tooltip)
        ensures
            t.view() == Seq::<Seq<char>>::empty(),
    {
        let t = Tooltip { lines: Vec::new() };
        proof { assert(t.view() =~= Seq::<Seq<char>>::empty()); }
        t
    }

    pub fn add(&mut self, line: String)
        ensures
            final(self).view() == old(self).view().push(line@),
    {
        let ghost before = self.lines@;
        self.lines.push(line);
        proof { crate::world::lemma_names_view_push(before, line); }
    }

    /// The box's width: its longest line, in bytes, with a column on each side.
    pub fn width(&self) -> (w: i32)
        requires
            self.view().len() > 0,
            forall|i: int| 0 <= i < self.view().len() ==> #[trigger] vstd::utf8::encode_utf8(self.view()[i]).len() + 2 <= i32::MAX,
        ensures
            exists|i: int| 0 <= i < self.view().len() && w == vstd::utf8::encode_utf8(self.view()[i]).len() + 2,
            forall|i: int| 0 <= i < self.view().len() ==> w >= #[trigger] vstd::utf8::encode_utf8(self.view()[i]).len() + 2,
    {
        let ghost v = self.view();
        let mut best: usize = 0;
        let mut k: usize = 0;
        let ghost mut at: int = 0;
        while k < self.lines.len()
            invariant
                k <= self.lines@.len(),
                v == self.view(),
                v.len() == self.lines@.len(),
                v.len() > 0,
                forall|i: int| 0 <= i < v.len() ==> #[trigger] vstd::utf8::encode_utf8(v[i]).len() + 2 <= i32::MAX,
                k > 0 ==> 0 <= at < k && best == vstd::utf8::encode_utf8(v[at]).len(),
                k == 0 ==> best == 0,
                forall|i: int| 0 <= i < k ==> best >= #[trigger] vstd::utf8::encode_utf8(v[i]).len(),
            decreases self.lines@.len() - k,
        {
            let line = self.lines[k].as_str();
            let len = line.len();
            proof {
                assert(v[k as int] == self.lines@[k as int]@);
                assert(line@ == v[k as int]);
                assert(vstd::utf8::encode_utf8(v[k as int]).len() + 2 <= i32::MAX);
                assert(len == vstd::utf8::encode_utf8(v[k as int]).len());
            }
            if k == 0 || len > best {
                best = len;
                proof { at = k as int; }
            }
            k = k + 1;
        }
        let w = (best + 2) as i32;
        proof { assert(w == vstd::utf8::encode_utf8(v[at]).len() + 2); }
        w
    }

    /// The box's height: its lines, with a row above and below.
    pub fn height(&self) -> (h: i32)
        requires
            self.view().len() + 2 <= i32::MAX,
        ensures
            h == self.view().len() + 2,
    {
        (self.lines.len() + 2) as i32
    }

    /// The lines, for drawing.
    pub fn lines(&self) -> (l: &Vec<String>)
        ensures
            crate::world::names_view(l@) == self.view(),
    {
        &self.lines
    }
}

impl Default for Tooltip {
    fn default() -> (t: Tooltip)
        ensures
            t.view() == Seq::<Seq<char>>::empty(),
    {
        Tooltip::new()
    }
}

/// How a creature's attributes read in its tooltip: a word for each attribute that
/// differs from the average, or "Quite Average".
pub open spec fn spec_attribute_words(a: Attributes) -> Seq<char> {
    let s = (if a.might.bonus < 0 { "Weak. "@ } else if a.might.bonus > 0 { "Strong. "@ } else { Seq::empty() })
        + (if a.quickness.bonus < 0 { "Clumsy. "@ } else if a.quickness.bonus > 0 { "Agile. "@ } else { Seq::empty() })
        + (if a.fitness.bonus < 0 { "Unhealthy. "@ } else if a.fitness.bonus > 0 { "Healthy. "@ } else { Seq::empty() })
        + (if a.intelligence.bonus < 0 { "Unintelligent. "@ } else if a.intelligence.bonus > 0 { "Smart. "@ } else { Seq::empty() });
    if s.len() == 0 { "Quite Average"@ } else { s }
}

fn word_for<'a>(bonus: i32, low: &'a str, high: &'a str) -> (s: &'a str)
    ensures
        s@ == (if bonus < 0 { low@ } else if bonus > 0 { high@ } else { Seq::empty() }),
{
    if bonus < 0 {
        low
    } else if bonus > 0 {
        high
    } else {
        proof { reveal_strlit(""); }
        ""
    }
}

pub fn attribute_words(a: &Attributes) -> (s: String)
    ensures
        s@ == spec_attribute_words(*a),
{
    let mut s = String::from_str(word_for(a.might.bonus, "Weak. ", "Strong. "));
    s.append(word_for(a.quickness.bonus, "Clumsy. ", "Agile. "));
    s.append(word_for(a.fitness.bonus, "Unhealthy. ", "Healthy. "));
    s.append(word_for(a.intelligence.bonus, "Unintelligent. ", "Smart. "));
    if s.as_str().is_empty() {
        String::from_str("Quite Average")
    } else {
        s
    }
}


/// The lines of entity `k`'s tooltip: its name, how its attributes read, and its level.
pub open spec fn tooltip_lines(w: WorldView, k: int) -> Seq<Seq<char>> {
    let e = w.ents[k];
    let l1 = seq![w.names[k]];
    let l2 = match e.attributes { Some(a) => l1.push(spec_attribute_words(a)), None => l1 };
    match e.pools { Some(p) => l2.push("Level: "@ + decimal(p.level as int)), None => l2 }
}

/// Whether entity `k` gets a tooltip when the mouse is over map tile `(x, y)`.
pub open spec fn tooltip_shown(w: WorldView, k: int, x: int, y: int) -> bool {
    let e = w.ents[k];
    e.alive && e.has_name && !e.hidden && (e.position matches Some(p) && p.x == x && p.y == y)
}

/// The tooltips among the first `n` entities for map tile `(x, y)`, in entity order.
pub open spec fn tooltips_upto(w: WorldView, x: int, y: int, n: nat) -> Seq<Seq<Seq<char>>>
    decreases n,
{
    if n == 0 {
        Seq::empty()
    } else {
        let prev = tooltips_upto(w, x, y, (n - 1) as nat);
        if tooltip_shown(w, n - 1, x, y) { prev.push(tooltip_lines(w, n - 1)) } else { prev }
    }
}

/// The tooltips for the mouse at screen cell `(mx, my)`, with the map's corner at
/// `(min_x, min_y)` on screen: none unless the mouse is in the map window (columns 1 to
/// 49, rows 1 to 40) over a visible tile inside the map's outer wall.
pub open spec fn spec_tooltips(w: WorldView, mx: int, my: int, min_x: int, min_y: int) -> Seq<Seq<Seq<char>>> {
    let x = mx + min_x;
    let y = my + min_y;
    if mx < 1 || mx > 49 || my < 1 || my > 40 {
        Seq::empty()
    } else if x >= w.map_width - 1 || y >= w.map_height - 1 || x < 1 || y < 1 {
        Seq::empty()
    } else if !w.visible[crate::map::spec_xy_idx(w.map_width as int, x, y)] {
        Seq::empty()
    } else {
        tooltips_upto(w, x, y, w.ents.len())
    }
}

fn tooltip_for(w: &World, k: usize) -> (t: Tooltip)
    requires
        w.wf(),
        k < w.view().ents.len(),
    ensures
        t.view() == tooltip_lines(w.view(), k as int),
{
    let ghost v = w.view();
    let mut t = Tooltip::new();
    t.add(w.names[k].clone());
    proof { assert(v.names[k as int] == w.names@[k as int]@); }
    let e = w.ents[k];
    if let Some(a) = e.attributes {
        t.add(attribute_words(&a));
    }
    if let Some(p) = e.pools {
        let lv = int_to_string(p.level);
        let mut l = String::from_str("Level: ");
        l.append(lv.as_str());
        t.add(l);
    }
    proof { assert(t.view() =~= tooltip_lines(v, k as int)); }
    t
}

/// The tooltips for the mouse at screen cell `(mx, my)`, with the map's corner at
/// `(min_x, min_y)` on screen.
pub fn tooltips(w: &World, mx: i32, my: i32, min_x: i32, min_y: i32) -> (r: Vec<Tooltip>)
    requires
        w.wf(),
    ensures
        r@.len() == spec_tooltips(w.view(), mx as int, my as int, min_x as int, min_y as int).len(),
        forall|i: int| 0 <= i < r@.len() ==> #[trigger] r@[i].view() == spec_tooltips(w.view(), mx as int, my as int, min_x as int, min_y as int)[i],
{
    let mut r: Vec<Tooltip> = Vec::new();
    if mx < 1 || mx > 49 || my < 1 || my > 40 {
        return r;
    }
    let x: i64 = mx as i64 + min_x as i64;
    let y: i64 = my as i64 + min_y as i64;
    if x >= w.map.width as i64 - 1 || y >= w.map.height as i64 - 1 || x < 1 || y < 1 {
        return r;
    }
    let idx = w.map.xy_idx(x as i32, y as i32);
    if !w.map.visible_tiles[idx] {
        return r;
    }
    let ghost v = w.view();
    let n = w.ents.len();
    let mut k: usize = 0;
    while k < n
        invariant
            k <= n,
            n == v.ents.len(),
            v == w.view(),
            w.wf(),
            r@.len() == tooltips_upto(v, x as int, y as int, k as nat).len(),
            forall|i: int| 0 <= i < r@.len() ==> #[trigger] r@[i].view() == tooltips_upto(v, x as int, y as int, k as nat)[i],
        decreases n - k,
    {
        let e = w.ents[k];
        let mut shown = e.alive && e.has_name && !e.hidden;
        if shown {
            shown = match e.position {
                Some(p) => p.x as i64 == x && p.y as i64 == y,
                None => false,
            };
        }
        if shown {
            let t = tooltip_for(w, k);
            r.push(t);
        }
        k = k + 1;
    }
    r
}

/// Where the column of tooltip boxes starts: centred on the mouse row, but moved up
/// until its lower half stays above row 50.
pub open spec fn spec_tooltip_top(mouse_y: int, total_height: int) -> int {
    let y = mouse_y - total_height / 2;
    if y + total_height / 2 > 50 { 50 - total_height / 2 } else { y }
}

pub fn tooltip_top(mouse_y: i32, total_height: i32) -> (y: i32)
    requires
        0 <= total_height,
        i32::MIN <= mouse_y - total_height / 2,
    ensures
        y == spec_tooltip_top(mouse_y as int, total_height as int),
{
    let half = total_height / 2;
    let mut y = mouse_y - half;
    while y + half > 50
        invariant
            0 <= half,
            half == total_height / 2,
            y <= mouse_y - half,
            y < mouse_y - half ==> y + half >= 50 && mouse_y > 50,
        decreases y + half,
    {
        y = y - 1;
    }
    y
}

} // verus!
