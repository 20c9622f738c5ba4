//! The code editor's colors: the chrome around the text and the colors of syntax captures.

use vstd::prelude::*;

use crate::text::str_eq;

verus! {

/// A color as 8-bit alpha, red, green and blue channels, packed as `0xAARRGGBB`.
#[derive(Clone, Copy, Debug, PartialEq, Eq, Structural)]
pub struct Color {
    pub argb: u32,
}

/// The packed word of a color.
pub open spec fn argb_word(a: u8, r: u8, g: u8, b: u8) -> u32 {
    (a as int * 0x100_0000 + r as int * 0x1_0000 + g as int * 0x100 + b as int) as u32
}

impl Color {
    /// A color with the given alpha and channels.
    pub fn from_argb(a: u8, r: u8, g: u8, b: u8) -> (c: Color)
        ensures
            c.argb == argb_word(a, r, g, b),
    {
        Color { argb: (a as u32) * 0x100_0000 + (r as u32) * 0x1_0000 + (g as u32) * 0x100 + (b as u32) }
    }

    /// An opaque color with the given channels.
    pub fn from_rgb(r: u8, g: u8, b: u8) -> (c: Color)
        ensures
            c.argb == argb_word(255, r, g, b),
    {
        Color::from_argb(255, r, g, b)
    }
}

/// The colors of the editor around its text.
#[derive(Clone, Copy, Debug, PartialEq, Eq, Structural)]
pub struct EditorTheme {
    pub background: Color,
    pub gutter_selected: Color,
    pub gutter_unselected: Color,
    pub line_selected_background: Color,
    pub cursor: Color,
    pub highlight: Color,
    pub text: Color,
    pub whitespace: Color,
}

/// The colors of the text, by the kind of syntax it belongs to.
#[derive(Clone, Copy, Debug, PartialEq, Eq, Structural)]
pub struct EditorSyntaxTheme {
    pub text: Color,
    pub whitespace: Color,
    pub attribute: Color,
    pub boolean: Color,
    pub comment: Color,
    pub constant: Color,
    pub constructor: Color,
    pub escape: Color,
    pub function: Color,
    pub function_macro: Color,
    pub function_method: Color,
    pub keyword: Color,
    pub label: Color,
    pub module: Color,
    pub number: Color,
    pub operator: Color,
    pub property: Color,
    pub punctuation: Color,
    pub punctuation_bracket: Color,
    pub punctuation_delimiter: Color,
    pub punctuation_special: Color,
    pub string: Color,
    pub string_escape: Color,
    pub string_special: Color,
    pub tag: Color,
    pub text_literal: Color,
    pub text_reference: Color,
    pub text_title: Color,
    pub text_uri: Color,
    pub text_emphasis: Color,
    pub type_: Color,
    pub variable: Color,
    pub variable_builtin: Color,
    pub variable_parameter: Color,
}

/// The dark editor colors.
pub open spec fn dark_editor_theme() -> EditorTheme {
    EditorTheme {
        background: Color { argb: argb_word(255, 29, 32, 33) },
        gutter_selected: Color { argb: argb_word(255, 235, 235, 235) },
        gutter_unselected: Color { argb: argb_word(255, 135, 135, 135) },
        line_selected_background: Color { argb: argb_word(255, 55, 55, 55) },
        cursor: Color { argb: argb_word(255, 255, 255, 255) },
        highlight: Color { argb: argb_word(255, 80, 80, 80) },
        text: Color { argb: argb_word(255, 255, 255, 255) },
        whitespace: Color { argb: argb_word(51, 223, 191, 142) },
    }
}

/// The light editor colors.
pub open spec fn light_editor_theme() -> EditorTheme {
    EditorTheme {
        background: Color { argb: argb_word(255, 246, 248, 250) },
        gutter_selected: Color { argb: argb_word(255, 36, 41, 46) },
        gutter_unselected: Color { argb: argb_word(255, 140, 149, 159) },
        line_selected_background: Color { argb: argb_word(255, 234, 238, 242) },
        cursor: Color { argb: argb_word(255, 36, 41, 46) },
        highlight: Color { argb: argb_word(255, 200, 225, 255) },
        text: Color { argb: argb_word(255, 36, 41, 46) },
        whitespace: Color { argb: argb_word(76, 106, 115, 125) },
    }
}

/// The dark syntax colors.
pub open spec fn dark_syntax_theme() -> EditorSyntaxTheme {
    EditorSyntaxTheme {
        text: Color { argb: argb_word(255, 235, 219, 178) },
        whitespace: Color { argb: argb_word(51, 223, 191, 142) },
        attribute: Color { argb: argb_word(255, 131, 165, 152) },
        boolean: Color { argb: argb_word(255, 211, 134, 155) },
        comment: Color { argb: argb_word(255, 146, 131, 116) },
        constant: Color { argb: argb_word(255, 211, 134, 155) },
        constructor: Color { argb: argb_word(255, 250, 189, 47) },
        escape: Color { argb: argb_word(255, 254, 128, 25) },
        function: Color { argb: argb_word(255, 152, 192, 124) },
        function_macro: Color { argb: argb_word(255, 131, 165, 152) },
        function_method: Color { argb: argb_word(255, 152, 192, 124) },
        keyword: Color { argb: argb_word(255, 251, 73, 52) },
        label: Color { argb: argb_word(255, 211, 134, 155) },
        module: Color { argb: argb_word(255, 250, 189, 47) },
        number: Color { argb: argb_word(255, 211, 134, 155) },
        operator: Color { argb: argb_word(255, 104, 157, 96) },
        property: Color { argb: argb_word(255, 152, 192, 124) },
        punctuation: Color { argb: argb_word(255, 104, 157, 96) },
        punctuation_bracket: Color { argb: argb_word(255, 254, 128, 25) },
        punctuation_delimiter: Color { argb: argb_word(255, 104, 157, 96) },
        punctuation_special: Color { argb: argb_word(255, 131, 165, 152) },
        string: Color { argb: argb_word(255, 184, 187, 38) },
        string_escape: Color { argb: argb_word(255, 254, 128, 25) },
        string_special: Color { argb: argb_word(255, 184, 187, 38) },
        tag: Color { argb: argb_word(255, 131, 165, 152) },
        text_literal: Color { argb: argb_word(255, 235, 219, 178) },
        text_reference: Color { argb: argb_word(255, 131, 165, 152) },
        text_title: Color { argb: argb_word(255, 250, 189, 47) },
        text_uri: Color { argb: argb_word(255, 104, 157, 96) },
        text_emphasis: Color { argb: argb_word(255, 235, 219, 178) },
        type_: Color { argb: argb_word(255, 250, 189, 47) },
        variable: Color { argb: argb_word(255, 235, 219, 178) },
        variable_builtin: Color { argb: argb_word(255, 211, 134, 155) },
        variable_parameter: Color { argb: argb_word(255, 235, 219, 178) },
    }
}

/// The light syntax colors.
pub open spec fn light_syntax_theme() -> EditorSyntaxTheme {
    EditorSyntaxTheme {
        text: Color { argb: argb_word(255, 36, 41, 46) },
        whitespace: Color { argb: argb_word(76, 106, 115, 125) },
        attribute: Color { argb: argb_word(255, 0, 92, 197) },
        boolean: Color { argb: argb_word(255, 0, 92, 197) },
        comment: Color { argb: argb_word(255, 106, 115, 125) },
        constant: Color { argb: argb_word(255, 0, 92, 197) },
        constructor: Color { argb: argb_word(255, 111, 66, 193) },
        escape: Color { argb: argb_word(255, 227, 98, 9) },
        function: Color { argb: argb_word(255, 111, 66, 193) },
        function_macro: Color { argb: argb_word(255, 111, 66, 193) },
        function_method: Color { argb: argb_word(255, 111, 66, 193) },
        keyword: Color { argb: argb_word(255, 215, 58, 73) },
        label: Color { argb: argb_word(255, 215, 58, 73) },
        module: Color { argb: argb_word(255, 227, 98, 9) },
        number: Color { argb: argb_word(255, 0, 92, 197) },
        operator: Color { argb: argb_word(255, 215, 58, 73) },
        property: Color { argb: argb_word(255, 0, 92, 197) },
        punctuation: Color { argb: argb_word(255, 36, 41, 46) },
        punctuation_bracket: Color { argb: argb_word(255, 36, 41, 46) },
        punctuation_delimiter: Color { argb: argb_word(255, 36, 41, 46) },
        punctuation_special: Color { argb: argb_word(255, 215, 58, 73) },
        string: Color { argb: argb_word(255, 3, 47, 98) },
        string_escape: Color { argb: argb_word(255, 227, 98, 9) },
        string_special: Color { argb: argb_word(255, 3, 47, 98) },
        tag: Color { argb: argb_word(255, 34, 134, 58) },
        text_literal: Color { argb: argb_word(255, 3, 47, 98) },
        text_reference: Color { argb: argb_word(255, 0, 92, 197) },
        text_title: Color { argb: argb_word(255, 0, 92, 197) },
        text_uri: Color { argb: argb_word(255, 3, 47, 98) },
        text_emphasis: Color { argb: argb_word(255, 36, 41, 46) },
        type_: Color { argb: argb_word(255, 111, 66, 193) },
        variable: Color { argb: argb_word(255, 36, 41, 46) },
        variable_builtin: Color { argb: argb_word(255, 0, 92, 197) },
        variable_parameter: Color { argb: argb_word(255, 227, 98, 9) },
    }
}

impl EditorTheme {
    /// The dark editor colors.
    pub fn dark() -> (t: Self)
        ensures
            t == dark_editor_theme(),
    {
        Self {
            background: Color::from_rgb(29, 32, 33),
            gutter_selected: Color::from_rgb(235, 235, 235),
            gutter_unselected: Color::from_rgb(135, 135, 135),
            line_selected_background: Color::from_rgb(55, 55, 55),
            cursor: Color::from_rgb(255, 255, 255),
            highlight: Color::from_rgb(80, 80, 80),
            text: Color::from_rgb(255, 255, 255),
            whitespace: Color::from_argb(51, 223, 191, 142),
        }
    }

    /// The light editor colors.
    pub fn light() -> (t: Self)
        ensures
            t == light_editor_theme(),
    {
        Self {
            background: Color::from_rgb(246, 248, 250),
            gutter_selected: Color::from_rgb(36, 41, 46),
            gutter_unselected: Color::from_rgb(140, 149, 159),
            line_selected_background: Color::from_rgb(234, 238, 242),
            cursor: Color::from_rgb(36, 41, 46),
            highlight: Color::from_rgb(200, 225, 255),
            text: Color::from_rgb(36, 41, 46),
            whitespace: Color::from_argb(76, 106, 115, 125),
        }
    }
}

impl EditorSyntaxTheme {
    /// The dark syntax colors.
    pub fn dark() -> (t: Self)
        ensures
            t == dark_syntax_theme(),
    {
        Self {
            text: Color::from_rgb(235, 219, 178),
            whitespace: Color::from_argb(51, 223, 191, 142),
            attribute: Color::from_rgb(131, 165, 152),
            boolean: Color::from_rgb(211, 134, 155),
            comment: Color::from_rgb(146, 131, 116),
            constant: Color::from_rgb(211, 134, 155),
            constructor: Color::from_rgb(250, 189, 47),
            escape: Color::from_rgb(254, 128, 25),
            function: Color::from_rgb(152, 192, 124),
            function_macro: Color::from_rgb(131, 165, 152),
            function_method: Color::from_rgb(152, 192, 124),
            keyword: Color::from_rgb(251, 73, 52),
            label: Color::from_rgb(211, 134, 155),
            module: Color::from_rgb(250, 189, 47),
            number: Color::from_rgb(211, 134, 155),
            operator: Color::from_rgb(104, 157, 96),
            property: Color::from_rgb(152, 192, 124),
            punctuation: Color::from_rgb(104, 157, 96),
            punctuation_bracket: Color::from_rgb(254, 128, 25),
            punctuation_delimiter: Color::from_rgb(104, 157, 96),
            punctuation_special: Color::from_rgb(131, 165, 152),
            string: Color::from_rgb(184, 187, 38),
            string_escape: Color::from_rgb(254, 128, 25),
            string_special: Color::from_rgb(184, 187, 38),
            tag: Color::from_rgb(131, 165, 152),
            text_literal: Color::from_rgb(235, 219, 178),
            text_reference: Color::from_rgb(131, 165, 152),
            text_title: Color::from_rgb(250, 189, 47),
            text_uri: Color::from_rgb(104, 157, 96),
            text_emphasis: Color::from_rgb(235, 219, 178),
            type_: Color::from_rgb(250, 189, 47),
            variable: Color::from_rgb(235, 219, 178),
            variable_builtin: Color::from_rgb(211, 134, 155),
            variable_parameter: Color::from_rgb(235, 219, 178),
        }
    }

    /// The light syntax colors.
    pub fn light() -> (t: Self)
        ensures
            t == light_syntax_theme(),
    {
        Self {
            text: Color::from_rgb(36, 41, 46),
            whitespace: Color::from_argb(76, 106, 115, 125),
            attribute: Color::from_rgb(0, 92, 197),
            boolean: Color::from_rgb(0, 92, 197),
            comment: Color::from_rgb(106, 115, 125),
            constant: Color::from_rgb(0, 92, 197),
            constructor: Color::from_rgb(111, 66, 193),
            escape: Color::from_rgb(227, 98, 9),
            function: Color::from_rgb(111, 66, 193),
            function_macro: Color::from_rgb(111, 66, 193),
            function_method: Color::from_rgb(111, 66, 193),
            keyword: Color::from_rgb(215, 58, 73),
            label: Color::from_rgb(215, 58, 73),
            module: Color::from_rgb(227, 98, 9),
            number: Color::from_rgb(0, 92, 197),
            operator: Color::from_rgb(215, 58, 73),
            property: Color::from_rgb(0, 92, 197),
            punctuation: Color::from_rgb(36, 41, 46),
            punctuation_bracket: Color::from_rgb(36, 41, 46),
            punctuation_delimiter: Color::from_rgb(36, 41, 46),
            punctuation_special: Color::from_rgb(215, 58, 73),
            string: Color::from_rgb(3, 47, 98),
            string_escape: Color::from_rgb(227, 98, 9),
            string_special: Color::from_rgb(3, 47, 98),
            tag: Color::from_rgb(34, 134, 58),
            text_literal: Color::from_rgb(3, 47, 98),
            text_reference: Color::from_rgb(0, 92, 197),
            text_title: Color::from_rgb(0, 92, 197),
            text_uri: Color::from_rgb(3, 47, 98),
            text_emphasis: Color::from_rgb(36, 41, 46),
            type_: Color::from_rgb(111, 66, 193),
            variable: Color::from_rgb(36, 41, 46),
            variable_builtin: Color::from_rgb(0, 92, 197),
            variable_parameter: Color::from_rgb(227, 98, 9),
        }
    }
}

impl Default for EditorTheme {
    /// The light colors.
    fn default() -> (t: Self)
        ensures
            t == light_editor_theme(),
    {
        Self::light()
    }
}

impl Default for EditorSyntaxTheme {
    /// The light colors.
    fn default() -> (t: Self)
        ensures
            t == light_syntax_theme(),
    {
        Self::light()
    }
}

/// A theme value registered under a component's name.
#[derive(Clone, Copy, Debug, PartialEq, Eq, Structural)]
pub enum ThemeValue {
    Editor(EditorTheme),
    EditorSyntax(EditorSyntaxTheme),
}

/// Themes of components, by component name.
pub struct Theme {
    entries: Vec<(&'static str, ThemeValue)>,
}

/// The index of the entry named `key`, if there is one.
pub open spec fn entry_index(entries: Seq<(Seq<char>, ThemeValue)>, key: Seq<char>) -> Option<int>
    decreases entries.len(),
{
    if entries.len() == 0 {
        None
    } else if entries.last().0 == key {
        Some(entries.len() - 1)
    } else {
        entry_index(entries.drop_last(), key)
    }
}

/// The value named `key`, if there is one.
pub open spec fn theme_get(entries: Seq<(Seq<char>, ThemeValue)>, key: Seq<char>) -> Option<ThemeValue> {
    match entry_index(entries, key) {
        Some(i) => Some(entries[i].1),
        None => None,
    }
}

impl Theme {
    /// The entries, as (name, value) pairs.
    pub closed spec fn view(&self) -> Seq<(Seq<char>, ThemeValue)> {
        self.entries@.map_values(|e: (&'static str, ThemeValue)| (e.0@, e.1))
    }

    /// No themes.
    pub fn new() -> (r: Self)
        ensures
            r@ == Seq::<(Seq<char>, ThemeValue)>::empty(),
    {
        let r = Theme { entries: Vec::new() };
        proof {
            assert(r@ =~= Seq::<(Seq<char>, ThemeValue)>::empty());
        }
        r
    }

    /// Where the last entry named `key` is, if there is one.
    fn position(&self, key: &str) -> (r: Option<usize>)
        ensures
            r matches Some(j) ==> entry_index(self@, key@) == Some(j as int),
            r is None ==> entry_index(self@, key@) is None,
            r matches Some(j) ==> j < self@.len() && self@[j as int].0 == key@,
    {
        let mut i = self.entries.len();
        while i > 0
            invariant
                i <= self.entries@.len(),
                forall|j: int| i <= j < self@.len() ==> #[trigger] self@[j].0 != key@,
                self@.len() == self.entries@.len(),
            decreases i,
        {
            if str_eq(self.entries[i - 1].0, key) {
                proof {
                    lemma_entry_index_at(self@, key@, (i - 1) as int);
                }
                return Some(i - 1);
            }
            i = i - 1;
        }
        proof {
            lemma_entry_index_absent(self@, key@);
        }
        None
    }

    /// Registers `value` under `key`, replacing what was there.
    pub fn set(&mut self, key: &'static str, value: ThemeValue)
        ensures
            theme_get(final(self)@, key@) == Some(value),
            forall|k: Seq<char>| k != key@ ==> theme_get(final(self)@, k) == theme_get(old(self)@, k),
    {
        let ghost v0 = self@;
        match self.position(key) {
            Some(j) => {
                proof {
                    lemma_entry_index_found(v0, key@);
                    let jj = j as int;
                    assert(entry_index(v0, key@) == Some(jj));
                    assert forall|m: int| jj < m < v0.len() implies #[trigger] v0[m].0 != key@ by {
                        if v0[m].0 == key@ {
                            lemma_entry_index_last(v0, key@, m);
                        }
                    }
                    lemma_entry_index_update(v0, key@, jj, value);
                }
                self.entries.set(j, (key, value));
                proof {
                    let u = v0.update(j as int, (key@, value));
                    assert(self@ =~= u);
                }
            },
            None => {
                self.entries.push((key, value));
                proof {
                    assert(self@ =~= v0.push((key@, value)));
                    assert(self@.drop_last() =~= v0);
                    lemma_entry_index_found(v0, key@);
                    assert forall|m: int| 0 <= m < v0.len() implies #[trigger] v0[m].0 != key@ by {
                        if v0[m].0 == key@ {
                            lemma_entry_index_some(v0, key@, m);
                        }
                    }
                    assert forall|k: Seq<char>| k != key@ implies theme_get(self@, k) == theme_get(v0, k) by {
                        lemma_entry_index_found(v0, k);
                    }
                }
            },
        }
    }

    /// The value registered under `key`, if any.
    pub fn get(&self, key: &str) -> (r: Option<ThemeValue>)
        ensures
            r == theme_get(self@, key@),
    {
        match self.position(key) {
            Some(j) => {
                proof {
                    lemma_entry_index_found(self@, key@);
                    assert(entry_index(self@, key@) == Some(j as int));
                    assert(self@[j as int].1 == self.entries@[j as int].1);
                }
                Some(self.entries[j].1)
            },
            None => None,
        }
    }
}

/// What is found is an entry with that name.
proof fn lemma_entry_index_found(entries: Seq<(Seq<char>, ThemeValue)>, key: Seq<char>)
    ensures
        entry_index(entries, key) matches Some(j) ==> 0 <= j < entries.len() && entries[j].0 == key,
    decreases entries.len(),
{
    if entries.len() > 0 {
        lemma_entry_index_found(entries.drop_last(), key);
    }
}

/// An entry named `key` after the one found cannot exist.
proof fn lemma_entry_index_last(entries: Seq<(Seq<char>, ThemeValue)>, key: Seq<char>, m: int)
    requires
        0 <= m < entries.len(),
        entries[m].0 == key,
    ensures
        entry_index(entries, key) matches Some(j) && m <= j,
    decreases entries.len(),
{
    if m < entries.len() - 1 && entries.last().0 != key {
        lemma_entry_index_last(entries.drop_last(), key, m);
    }
}

/// A name some entry has is found.
proof fn lemma_entry_index_some(entries: Seq<(Seq<char>, ThemeValue)>, key: Seq<char>, m: int)
    requires
        0 <= m < entries.len(),
        entries[m].0 == key,
    ensures
        entry_index(entries, key) is Some,
{
    lemma_entry_index_last(entries, key, m);
}

/// The last entry named `key` is the one found.
proof fn lemma_entry_index_at(entries: Seq<(Seq<char>, ThemeValue)>, key: Seq<char>, i: int)
    requires
        0 <= i < entries.len(),
        entries[i].0 == key,
        forall|j: int| i < j < entries.len() ==> #[trigger] entries[j].0 != key,
    ensures
        entry_index(entries, key) == Some(i),
    decreases entries.len(),
{
    if i < entries.len() - 1 {
        lemma_entry_index_at(entries.drop_last(), key, i);
    }
}

/// Without an entry named `key`, nothing is found, and pushing one makes it the one found.
proof fn lemma_entry_index_absent(entries: Seq<(Seq<char>, ThemeValue)>, key: Seq<char>)
    requires
        forall|j: int| 0 <= j < entries.len() ==> #[trigger] entries[j].0 != key,
    ensures
        entry_index(entries, key) is None,
    decreases entries.len(),
{
    if entries.len() > 0 {
        lemma_entry_index_absent(entries.drop_last(), key);
    }
}

/// Replacing the value of the last entry named `key` changes what `key` finds and nothing else.
proof fn lemma_entry_index_update(entries: Seq<(Seq<char>, ThemeValue)>, key: Seq<char>, i: int, value: ThemeValue)
    requires
        0 <= i < entries.len(),
        entries[i].0 == key,
        forall|j: int| i < j < entries.len() ==> #[trigger] entries[j].0 != key,
    ensures
        theme_get(entries.update(i, (key, value)), key) == Some(value),
        forall|k: Seq<char>| k != key ==> theme_get(entries.update(i, (key, value)), k) == theme_get(entries, k),
    decreases entries.len(),
{
    let u = entries.update(i, (key, value));
    lemma_entry_index_at(u, key, i);
    assert forall|k: Seq<char>| k != key implies theme_get(u, k) == theme_get(entries, k) by {
        lemma_entry_index_other(entries, key, i, value, k);
        lemma_entry_index_found(entries, k);
    }
}

/// Replacing the value of an entry named `key` does not change what another name finds.
proof fn lemma_entry_index_other(entries: Seq<(Seq<char>, ThemeValue)>, key: Seq<char>, i: int, value: ThemeValue, k: Seq<char>)
    requires
        0 <= i < entries.len(),
        entries[i].0 == key,
        k != key,
    ensures
        entry_index(entries.update(i, (key, value)), k) == entry_index(entries, k),
    decreases entries.len(),
{
    let u = entries.update(i, (key, value));
    if entries.len() > 0 {
        if i < entries.len() - 1 {
            assert(u.drop_last() =~= entries.drop_last().update(i, (key, value)));
            lemma_entry_index_other(entries.drop_last(), key, i, value, k);
        } else {
            assert(u.drop_last() =~= entries.drop_last());
        }
    }
}

/// Registers the code editor's themes in a [`Theme`].
pub trait CodeEditorThemeExt {
    fn with_dark_code_editor(self) -> Self;

    fn with_light_code_editor(self) -> Self;
}

impl CodeEditorThemeExt for Theme {
    /// Registers the dark editor and syntax colors.
    fn with_dark_code_editor(self) -> (r: Theme)
        ensures
            theme_get(r@, "code_editor"@) == Some(ThemeValue::Editor(dark_editor_theme())),
            theme_get(r@, "code_editor_syntax"@) == Some(ThemeValue::EditorSyntax(dark_syntax_theme())),
    {
        proof {
            reveal_strlit("code_editor");
            reveal_strlit("code_editor_syntax");
            assert("code_editor"@.len() != "code_editor_syntax"@.len());
        }
        let mut theme = self;
        theme.set("code_editor", ThemeValue::Editor(EditorTheme::dark()));
        theme.set("code_editor_syntax", ThemeValue::EditorSyntax(EditorSyntaxTheme::dark()));
        theme
    }

    /// Registers the light editor and syntax colors.
    fn with_light_code_editor(self) -> (r: Theme)
        ensures
            theme_get(r@, "code_editor"@) == Some(ThemeValue::Editor(light_editor_theme())),
            theme_get(r@, "code_editor_syntax"@) == Some(ThemeValue::EditorSyntax(light_syntax_theme())),
    {
        proof {
            reveal_strlit("code_editor");
            reveal_strlit("code_editor_syntax");
            assert("code_editor"@.len() != "code_editor_syntax"@.len());
        }
        let mut theme = self;
        theme.set("code_editor", ThemeValue::Editor(EditorTheme::light()));
        theme.set("code_editor_syntax", ThemeValue::EditorSyntax(EditorSyntaxTheme::light()));
        theme
    }
}

} // verus!
