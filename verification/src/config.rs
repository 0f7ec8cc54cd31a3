use vstd::prelude::*;

verus! {

// ---------------------------------------------------------------------------
// Ghost model of a parsed TOML document. Only what the configuration reads
// is distinguished: strings, tables, and everything else.
// ---------------------------------------------------------------------------

pub ghost enum TomlData {
    Str(Seq<char>),
    Table(Map<Seq<char>, TomlData>),
    Other,
}

/// The document that a given text parses to, if it parses at all.
/// Names the result of `toml::from_str::<toml::Value>`.
pub uninterp spec fn toml_doc(s: Seq<char>) -> Option<TomlData>;

/// What a `toml::Value` holds.
pub uninterp spec fn toml_model(v: toml::Value) -> TomlData;

#[verifier::external_type_specification]
#[verifier::external_body]
pub struct ExTomlValue(toml::Value);

/// Relies on `toml::from_str::<toml::Value>`: parses a TOML document from
/// text; the result is a function of the text alone.
#[verifier::external_body]
fn parse_toml(s: &str) -> (r: Option<toml::Value>)
    ensures
        r is Some <==> toml_doc(s@) is Some,
        r matches Some(v) ==> toml_model(v) == toml_doc(s@)->Some_0,
{
    toml::from_str::<toml::Value>(s).ok()
}

/// Relies on `toml::Value::get` with a string index: on a table it looks the
/// key up, on every other value it returns nothing.
#[verifier::external_body]
fn value_get<'a>(v: &'a toml::Value, key: &str) -> (r: Option<&'a toml::Value>)
    ensures
        match toml_model(*v) {
            TomlData::Table(m) => {
                &&& (r is Some <==> m.contains_key(key@))
                &&& (r matches Some(w) ==> toml_model(*w) == m[key@])
            },
            _ => r is None,
        },
{
    v.get(key)
}

/// Relies on `toml::Value::as_str`: hands out the characters of a string
/// value and nothing of any other value.
#[verifier::external_body]
fn value_as_str<'a>(v: &'a toml::Value) -> (r: Option<&'a str>)
    ensures
        match toml_model(*v) {
            TomlData::Str(s) => r matches Some(t) && t@ == s,
            _ => r is None,
        },
{
    v.as_str()
}

pub open spec fn key_views(ks: Seq<String>) -> Seq<Seq<char>> {
    ks.map_values(|k: String| k@)
}

/// Relies on `toml::Value::as_table` and `toml::map::Map::keys`: hands out
/// the keys of a table value, each exactly once.
#[verifier::external_body]
fn value_table_keys(v: &toml::Value) -> (r: Option<Vec<String>>)
    ensures
        match toml_model(*v) {
            TomlData::Table(m) => {
                &&& r is Some
                &&& key_views(r->Some_0@).no_duplicates()
                &&& forall|i: int|
                    0 <= i < r->Some_0@.len() ==> m.contains_key(#[trigger] r->Some_0@[i]@)
                &&& forall|k: Seq<char>| #[trigger]
                    m.contains_key(k) ==> key_views(r->Some_0@).contains(k)
            },
            _ => r is None,
        },
{
    match v.as_table() {
        Some(t) => Some(t.keys().cloned().collect()),
        None => None,
    }
}

// ---------------------------------------------------------------------------
// The configuration types.
// ---------------------------------------------------------------------------

/// The color theme handed to the front end, five color strings.
#[derive(Debug, Clone, PartialEq)]
pub struct ColorConfig {
    pub background: String,
    pub border: String,
    pub text: String,
    pub selected_bg: String,
    pub selected_text: String,
}

pub ghost struct ColorsV {
    pub background: Seq<char>,
    pub border: Seq<char>,
    pub text: Seq<char>,
    pub selected_bg: Seq<char>,
    pub selected_text: Seq<char>,
}

impl View for ColorConfig {
    type V = ColorsV;

    open spec fn view(&self) -> ColorsV {
        ColorsV {
            background: self.background@,
            border: self.border@,
            text: self.text@,
            selected_bg: self.selected_bg@,
            selected_text: self.selected_text@,
        }
    }
}

/// The built-in default theme.
pub open spec fn default_colors() -> ColorsV {
    ColorsV {
        background: "#1e1e2e"@,
        border: "#fab387"@,
        text: "#fab387"@,
        selected_bg: "#fab387"@,
        selected_text: "#1e1e2e"@,
    }
}

impl Default for ColorConfig {
    fn default() -> (r: Self)
        ensures
            r@ == default_colors(),
    {
        ColorConfig {
            background: "#1e1e2e".to_owned(),
            border: "#fab387".to_owned(),
            text: "#fab387".to_owned(),
            selected_bg: "#fab387".to_owned(),
            selected_text: "#1e1e2e".to_owned(),
        }
    }
}

/// The user configuration: an optional color theme and an optional list of
/// alias entries, an alias name paired with the shell command it runs.
#[derive(Debug, Clone, PartialEq)]
pub struct MofiConfig {
    pub colors: Option<ColorConfig>,
    pub aliases: Option<Vec<(String, String)>>,
}

pub ghost struct MofiV {
    pub colors: Option<ColorsV>,
    pub aliases: Option<Seq<(Seq<char>, Seq<char>)>>,
}

pub open spec fn view_aliases(s: Seq<(String, String)>) -> Seq<(Seq<char>, Seq<char>)> {
    s.map_values(|p: (String, String)| (p.0@, p.1@))
}

impl View for MofiConfig {
    type V = MofiV;

    open spec fn view(&self) -> MofiV {
        MofiV {
            colors: match self.colors {
                Some(c) => Some(c@),
                None => None,
            },
            aliases: match self.aliases {
                Some(al) => Some(view_aliases(al@)),
                None => None,
            },
        }
    }
}

pub open spec fn empty_config() -> MofiV {
    MofiV { colors: None, aliases: None }
}

impl Default for MofiConfig {
    fn default() -> (r: Self)
        ensures
            r@ == empty_config(),
    {
        MofiConfig { colors: None, aliases: None }
    }
}

// ---------------------------------------------------------------------------
// What a parsed document means as a configuration.
// ---------------------------------------------------------------------------

/// The string under a key of a table, when the key is there and its value is
/// a string.
pub open spec fn color_str(m: Map<Seq<char>, TomlData>, key: Seq<char>) -> Option<Seq<char>> {
    if m.contains_key(key) && m[key] is Str {
        Some(m[key]->Str_0)
    } else {
        None
    }
}

/// A table reads as a color theme exactly when all five fields are present
/// as strings; other fields are ignored.
pub open spec fn colors_of_table(m: Map<Seq<char>, TomlData>) -> Option<ColorsV> {
    if color_str(m, "background"@) is Some && color_str(m, "border"@) is Some && color_str(
        m,
        "text"@,
    ) is Some && color_str(m, "selected_bg"@) is Some && color_str(m, "selected_text"@) is Some {
        Some(
            ColorsV {
                background: color_str(m, "background"@)->Some_0,
                border: color_str(m, "border"@)->Some_0,
                text: color_str(m, "text"@)->Some_0,
                selected_bg: color_str(m, "selected_bg"@)->Some_0,
                selected_text: color_str(m, "selected_text"@)->Some_0,
            },
        )
    } else {
        None
    }
}

/// The colors of the primary document: absent, present and well-formed, or a
/// shape failure (the outer None), which discards the whole document.
pub open spec fn doc_colors(m: Map<Seq<char>, TomlData>) -> Option<Option<ColorsV>> {
    if !m.contains_key("colors"@) {
        Some(None)
    } else {
        match m["colors"@] {
            TomlData::Table(ct) => match colors_of_table(ct) {
                Some(c) => Some(Some(c)),
                None => None,
            },
            _ => None,
        }
    }
}

pub open spec fn table_all_strings(m: Map<Seq<char>, TomlData>) -> bool {
    forall|k: Seq<char>| #[trigger] m.contains_key(k) ==> m[k] is Str
}

/// The alias table of the primary document is either absent or a table whose
/// values are all strings; anything else discards the whole document.
pub open spec fn doc_aliases_ok(m: Map<Seq<char>, TomlData>) -> bool {
    !m.contains_key("aliases"@) || (m["aliases"@] is Table && table_all_strings(
        m["aliases"@]->Table_0,
    ))
}

pub open spec fn doc_ok(m: Map<Seq<char>, TomlData>) -> bool {
    doc_colors(m) is Some && doc_aliases_ok(m)
}

/// An alias list carries exactly the entries of a parsed alias table: every
/// listed name is a key of the table with the listed command, each name once,
/// and every key of the table is listed.
pub open spec fn aliases_match_table(
    al: Seq<(Seq<char>, Seq<char>)>,
    m: Map<Seq<char>, TomlData>,
) -> bool {
    &&& al.map_values(|p: (Seq<char>, Seq<char>)| p.0).no_duplicates()
    &&& forall|i: int|
        0 <= i < al.len() ==> m.contains_key(#[trigger] al[i].0) && m[al[i].0] == TomlData::Str(
            al[i].1,
        )
    &&& forall|k: Seq<char>| #[trigger]
        m.contains_key(k) ==> al.map_values(|p: (Seq<char>, Seq<char>)| p.0).contains(k)
}

/// How a loaded configuration relates to the parsed primary document: a text
/// that does not parse, or a document of the wrong shape, degrades to the
/// empty configuration; otherwise colors and aliases are read off the
/// document.
pub open spec fn mofi_config_matches_doc(c: MofiV, d: Option<TomlData>) -> bool {
    match d {
        Some(TomlData::Table(m)) => {
            if doc_ok(m) {
                &&& c.colors == doc_colors(m)->Some_0
                &&& if m.contains_key("aliases"@) {
                    c.aliases matches Some(al) && aliases_match_table(al, m["aliases"@]->Table_0)
                } else {
                    c.aliases is None
                }
            } else {
                c == empty_config()
            }
        },
        _ => c == empty_config(),
    }
}

// ---------------------------------------------------------------------------
// Parsing the two files.
// ---------------------------------------------------------------------------

/// Reads a color theme off a table value: all five fields, each a string.
fn colors_from_value(v: &toml::Value) -> (r: Option<ColorConfig>)
    ensures
        match toml_model(*v) {
            TomlData::Table(m) => match colors_of_table(m) {
                Some(cv) => r matches Some(c) && c@ == cv,
                None => r is None,
            },
            _ => r is None,
        },
{
    let background = match value_get(v, "background") {
        Some(w) => match value_as_str(w) {
            Some(s) => s.to_owned(),
            None => {
                return None;
            },
        },
        None => {
            return None;
        },
    };
    let border = match value_get(v, "border") {
        Some(w) => match value_as_str(w) {
            Some(s) => s.to_owned(),
            None => {
                return None;
            },
        },
        None => {
            return None;
        },
    };
    let text = match value_get(v, "text") {
        Some(w) => match value_as_str(w) {
            Some(s) => s.to_owned(),
            None => {
                return None;
            },
        },
        None => {
            return None;
        },
    };
    let selected_bg = match value_get(v, "selected_bg") {
        Some(w) => match value_as_str(w) {
            Some(s) => s.to_owned(),
            None => {
                return None;
            },
        },
        None => {
            return None;
        },
    };
    let selected_text = match value_get(v, "selected_text") {
        Some(w) => match value_as_str(w) {
            Some(s) => s.to_owned(),
            None => {
                return None;
            },
        },
        None => {
            return None;
        },
    };
    Some(ColorConfig { background, border, text, selected_bg, selected_text })
}

/// Reads the alias entries off a table value whose values are all strings.
fn aliases_from_value(v: &toml::Value) -> (r: Option<Vec<(String, String)>>)
    ensures
        match toml_model(*v) {
            TomlData::Table(m) => {
                if table_all_strings(m) {
                    r matches Some(al) && aliases_match_table(view_aliases(al@), m)
                } else {
                    r is None
                }
            },
            _ => r is None,
        },
{
    let keys = match value_table_keys(v) {
        Some(ks) => ks,
        None => {
            return None;
        },
    };
    let ghost m = toml_model(*v)->Table_0;
    let mut al: Vec<(String, String)> = Vec::new();
    let mut i: usize = 0;
    while i < keys.len()
        invariant
            i <= keys@.len(),
            toml_model(*v) is Table,
            m == toml_model(*v)->Table_0,
            key_views(keys@).no_duplicates(),
            forall|j: int| 0 <= j < keys@.len() ==> m.contains_key(#[trigger] keys@[j]@),
            forall|k: Seq<char>| #[trigger] m.contains_key(k) ==> key_views(keys@).contains(k),
            al@.len() == i,
            forall|j: int| 0 <= j < i ==> (#[trigger] al@[j]).0@ == keys@[j]@,
            forall|j: int|
                0 <= j < i ==> m[(#[trigger] al@[j]).0@] == TomlData::Str(al@[j].1@),
        decreases keys@.len() - i,
    {
        let key = &keys[i];
        let w = match value_get(v, key.as_str()) {
            Some(w) => w,
            None => {
                proof {
                    assert(m.contains_key(keys@[i as int]@));
                }
                return None;
            },
        };
        let cmd = match value_as_str(w) {
            Some(s) => s.to_owned(),
            None => {
                proof {
                    assert(m.contains_key(keys@[i as int]@));
                    assert(!(m[keys@[i as int]@] is Str));
                }
                return None;
            },
        };
        al.push((key.clone(), cmd));
        i = i + 1;
    }
    proof {
        let av = view_aliases(al@);
        let kv = key_views(keys@);
        assert(av.map_values(|p: (Seq<char>, Seq<char>)| p.0) =~= kv);
        assert(table_all_strings(m)) by {
            assert forall|k: Seq<char>| #[trigger] m.contains_key(k) implies m[k] is Str by {
                assert(kv.contains(k));
                let j = choose|j: int| 0 <= j < kv.len() && kv[j] == k;
                assert(al@[j].0@ == k);
            }
        }
        assert(aliases_match_table(av, m));
    }
    Some(al)
}

/// Parses the primary configuration file's text; a text that does not parse,
/// or whose shape is wrong anywhere, yields the empty configuration.
pub fn parse_mofi_config(text: &str) -> (c: MofiConfig)
    ensures
        mofi_config_matches_doc(c@, toml_doc(text@)),
{
    let v = match parse_toml(text) {
        Some(v) => v,
        None => {
            return MofiConfig { colors: None, aliases: None };
        },
    };
    let colors = match value_get(&v, "colors") {
        Some(w) => match colors_from_value(w) {
            Some(c) => Some(c),
            None => {
                return MofiConfig { colors: None, aliases: None };
            },
        },
        None => None,
    };
    let aliases = match value_get(&v, "aliases") {
        Some(w) => match aliases_from_value(w) {
            Some(al) => Some(al),
            None => {
                return MofiConfig { colors: None, aliases: None };
            },
        },
        None => None,
    };
    MofiConfig { colors, aliases }
}

/// The colors that the legacy color-only file carries: the five fields at
/// the top level of the document.
pub open spec fn legacy_colors_of(text: Seq<char>) -> Option<ColorsV> {
    match toml_doc(text) {
        Some(TomlData::Table(m)) => colors_of_table(m),
        _ => None,
    }
}

/// Parses the legacy color-only file's text.
pub fn parse_legacy_colors(text: &str) -> (r: Option<ColorConfig>)
    ensures
        match legacy_colors_of(text@) {
            Some(cv) => r matches Some(c) && c@ == cv,
            None => r is None,
        },
{
    match parse_toml(text) {
        Some(v) => colors_from_value(&v),
        None => None,
    }
}

// ---------------------------------------------------------------------------
// Resolution across the two files.
// ---------------------------------------------------------------------------

pub open spec fn opt_text(t: Option<&String>) -> Option<Seq<char>> {
    match t {
        Some(s) => Some(s@),
        None => None,
    }
}

pub open spec fn primary_doc(primary: Option<Seq<char>>) -> Option<TomlData> {
    match primary {
        Some(t) => toml_doc(t),
        None => None,
    }
}

/// The colors the primary file alone provides.
pub open spec fn primary_colors(primary: Option<Seq<char>>) -> Option<ColorsV> {
    match primary_doc(primary) {
        Some(TomlData::Table(m)) => if doc_ok(m) {
            doc_colors(m)->Some_0
        } else {
            None
        },
        _ => None,
    }
}

/// The resolution order for colors: the primary file's embedded colors if
/// present and well-formed, else the legacy file's, else none.
pub open spec fn resolved_colors(primary: Option<Seq<char>>, legacy: Option<Seq<char>>) -> Option<
    ColorsV,
> {
    match primary_colors(primary) {
        Some(cv) => Some(cv),
        None => match legacy {
            Some(t) => legacy_colors_of(t),
            None => None,
        },
    }
}

/// Loads the configuration from the optional contents of the two files: the
/// primary file gives colors and aliases; when it gives no colors the legacy
/// color file is consulted; every failure degrades to the empty
/// configuration, never to an error.
pub fn load_mofi_config(primary: Option<&String>, legacy: Option<&String>) -> (c: MofiConfig)
    ensures
        c@.colors == resolved_colors(opt_text(primary), opt_text(legacy)),
        mofi_config_matches_doc(
            MofiV { colors: primary_colors(opt_text(primary)), aliases: c@.aliases },
            primary_doc(opt_text(primary)),
        ),
{
    let mut config = match primary {
        Some(t) => parse_mofi_config(t.as_str()),
        None => MofiConfig { colors: None, aliases: None },
    };
    if config.colors.is_none() {
        match legacy {
            Some(t) => {
                config.colors = parse_legacy_colors(t.as_str());
            },
            None => {},
        }
    }
    config
}

/// The color theme: the resolved colors, else the built-in default. This
/// operation has no failure path.
pub fn load_color_config(primary: Option<&String>, legacy: Option<&String>) -> (c: ColorConfig)
    ensures
        c@ == match resolved_colors(opt_text(primary), opt_text(legacy)) {
            Some(cv) => cv,
            None => default_colors(),
        },
{
    let config = load_mofi_config(primary, legacy);
    match config.colors {
        Some(c) => c,
        None => ColorConfig::default(),
    }
}

} // verus!
