//! The game log: plain entries, and coloured entries assembled fragment by
//! fragment with a builder.

use vstd::prelude::*;

verus! {

/// The named colours that log text is drawn in.
#[derive(Clone, Copy, Debug, PartialEq, Eq, Structural)]
pub enum NamedColor {
    White,
    Black,
    Grey,
    Yellow,
    Cyan,
    Red,
    Orange,
    Green,
    Blue,
    Magenta,
    Gold,
}

/// A run of log text in one colour.
pub struct LogFragment {
    pub color: NamedColor,
    pub text: String,
}

/// A fragment as a plain value: its colour and its characters.
pub open spec fn fragment_view(f: LogFragment) -> (NamedColor, Seq<char>) {
    (f.color, f.text@)
}

pub open spec fn fragments_view(fs: Seq<LogFragment>) -> Seq<(NamedColor, Seq<char>)> {
    fs.map_values(|f: LogFragment| fragment_view(f))
}

/// Builds one coloured log entry.
pub struct Logger {
    current_color: NamedColor,
    fragments: Vec<LogFragment>,
}

/// The entries written so far, each a sequence of coloured fragments.
pub struct LogStore {
    pub entries: Vec<Vec<LogFragment>>,
}

/// The plain message log.
pub struct GameLog {
    pub entries: Vec<String>,
}

pub open spec fn digit_char(d: int) -> char {
    if d == 0 { '0' }
    else if d == 1 { '1' }
    else if d == 2 { '2' }
    else if d == 3 { '3' }
    else if d == 4 { '4' }
    else if d == 5 { '5' }
    else if d == 6 { '6' }
    else if d == 7 { '7' }
    else if d == 8 { '8' }
    else { '9' }
}

/// The decimal digits of a natural number, most significant first, with no leading zero.
pub open spec fn decimal_digits(n: nat) -> Seq<char>
    decreases n,
{
    if n < 10 {
        seq![digit_char(n as int)]
    } else {
        decimal_digits(n / 10).push(digit_char((n % 10) as int))
    }
}

/// The decimal form of an integer, with a leading '-' when it is negative.
pub open spec fn decimal(n: int) -> Seq<char> {
    if n < 0 {
        seq!['-'] + decimal_digits((-n) as nat)
    } else {
        decimal_digits(n as nat)
    }
}

fn digit_str(d: u32) -> (s: &'static str)
    requires
        d < 10,
    ensures
        s@ == seq![digit_char(d as int)],
{
    proof {
        reveal_strlit("0");
        reveal_strlit("1");
        reveal_strlit("2");
        reveal_strlit("3");
        reveal_strlit("4");
        reveal_strlit("5");
        reveal_strlit("6");
        reveal_strlit("7");
        reveal_strlit("8");
        reveal_strlit("9");
    }
    if d == 0 { "0" }
    else if d == 1 { "1" }
    else if d == 2 { "2" }
    else if d == 3 { "3" }
    else if d == 4 { "4" }
    else if d == 5 { "5" }
    else if d == 6 { "6" }
    else if d == 7 { "7" }
    else if d == 8 { "8" }
    else { "9" }
}

fn natural_to_string(n: u32) -> (s: String)
    ensures
        s@ == decimal_digits(n as nat),
    decreases n,
{
    if n < 10 {
        String::from_str(digit_str(n))
    } else {
        let mut s = natural_to_string(n / 10);
        s.append(digit_str(n % 10));
        s
    }
}

/// The decimal form of `n`, as `format!("{n}")` writes it.
pub fn int_to_string(n: i32) -> (s: String)
    ensures
        s@ == decimal(n as int),
{
    if n < 0 {
        let magnitude: u32 = if n == i32::MIN {
            2147483648u32
        } else {
            (-n) as u32
        };
        let digits = natural_to_string(magnitude);
        let mut s = String::from_str("-");
        proof { reveal_strlit("-"); }
        s.append(digits.as_str());
        s
    } else {
        natural_to_string(n as u32)
    }
}

impl Logger {
    /// The colour that the next appended text takes.
    pub closed spec fn current(&self) -> NamedColor {
        self.current_color
    }

    /// The fragments gathered so far.
    pub closed spec fn gathered(&self) -> Seq<(NamedColor, Seq<char>)> {
        fragments_view(self.fragments@)
    }

    /// An empty entry that writes in white.
    pub fn new() -> (l: Logger)
        ensures
            l.current() == NamedColor::White,
            l.gathered() == Seq::<(NamedColor, Seq<char>)>::empty(),
    {
        let l = Logger { current_color: NamedColor::White, fragments: Vec::new() };
        assert(l.gathered() =~= Seq::<(NamedColor, Seq<char>)>::empty());
        l
    }

    /// Switches the colour of the text appended after this call.
    pub fn color(self, color: NamedColor) -> (l: Logger)
        ensures
            l.current() == color,
            l.gathered() == self.gathered(),
    {
        Logger { current_color: color, fragments: self.fragments }
    }

    /// Appends `text` in the current colour.
    pub fn append(self, text: &str) -> (l: Logger)
        ensures
            l.current() == self.current(),
            l.gathered() == self.gathered().push((self.current(), text@)),
    {
        let c = self.current_color;
        self.add_fragment(String::from_str(text), c)
    }

    fn add_fragment(self, text: String, color: NamedColor) -> (l: Logger)
        ensures
            l.current() == self.current(),
            l.gathered() == self.gathered().push((color, text@)),
    {
        let mut fragments = self.fragments;
        let ghost before = fragments@;
        fragments.push(LogFragment { color, text });
        let l = Logger { current_color: self.current_color, fragments };
        assert(l.gathered() =~= fragments_view(before).push((color, text@)));
        l
    }

    /// Appends the name of a creature, in yellow; the current colour is unchanged.
    pub fn npc_name(self, text: &str) -> (l: Logger)
        ensures
            l.current() == self.current(),
            l.gathered() == self.gathered().push((NamedColor::Yellow, text@)),
    {
        self.add_fragment(String::from_str(text), NamedColor::Yellow)
    }

    /// Appends the name of an item, in cyan; the current colour is unchanged.
    pub fn item_name(self, text: &str) -> (l: Logger)
        ensures
            l.current() == self.current(),
            l.gathered() == self.gathered().push((NamedColor::Cyan, text@)),
    {
        self.add_fragment(String::from_str(text), NamedColor::Cyan)
    }

    /// Appends an amount of damage, in red; the current colour is unchanged.
    pub fn damage(self, damage: i32) -> (l: Logger)
        ensures
            l.current() == self.current(),
            l.gathered() == self.gathered().push((NamedColor::Red, decimal(damage as int))),
    {
        self.add_fragment(int_to_string(damage), NamedColor::Red)
    }

    /// Writes the gathered fragments to `store` as one new entry.
    pub fn log(self, store: &mut LogStore)
        ensures
            final(store).entries@.len() == old(store).entries@.len() + 1,
            forall|i: int| 0 <= i < old(store).entries@.len() ==> #[trigger] final(store).entries@[i] == old(store).entries@[i],
            fragments_view(final(store).entries@.last()@) == self.gathered(),
    {
        store.entries.push(self.fragments);
    }
}

impl Default for Logger {
    fn default() -> (l: Logger)
        ensures
            l.current() == NamedColor::White,
            l.gathered() == Seq::<(NamedColor, Seq<char>)>::empty(),
    {
        Logger::new()
    }
}

impl LogStore {
    pub fn new() -> (s: LogStore)
        ensures
            s.entries@.len() == 0,
    {
        LogStore { entries: Vec::new() }
    }
}

impl GameLog {
    pub fn new() -> (g: GameLog)
        ensures
            g.entries@.len() == 0,
    {
        GameLog { entries: Vec::new() }
    }
}

} // verus!
