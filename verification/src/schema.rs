//! The schema language of the `mdbx!` declaration: a list of sub-database
//! names, each optionally followed by indented `key`, `val` and `flag` lines,
//! expanded into one `mdbx::Db!` declaration per sub-database.
use vstd::prelude::*;
use vstd::string::*;
use crate::text::{
    copy_string, join_spec, join_with, lemma_sorted_unique, sort_dedup, split_at_char, split_spec,
    str_eq, strictly_sorted, views, sort_spec, lemma_sort_spec,
};

verus! {

/// One token of the declaration, with the line and column where it starts.
pub struct Token {
    pub text: String,
    pub line: usize,
    pub column: usize,
}

/// A sub-database of the declaration: its name and its `key` / `val` /
/// `flag` settings, each setting holding the texts of the tokens that
/// followed it on its line, run together.
pub struct Cls {
    pub cls: String,
    pub map: Vec<(String, String)>,
}

/// What a `Cls` stands for.
pub struct ClsView {
    pub cls: Seq<char>,
    pub map: Map<Seq<char>, Seq<char>>,
}

/// The settings held by a list of (name, text) pairs.
pub open spec fn pairs_map(s: Seq<(String, String)>) -> Map<Seq<char>, Seq<char>>
    decreases s.len(),
{
    if s.len() == 0 {
        Map::empty()
    } else {
        pairs_map(s.drop_last()).insert(s.last().0@, s.last().1@)
    }
}

/// No setting name occurs twice.
pub open spec fn keys_distinct(s: Seq<(String, String)>) -> bool {
    forall|i: int, j: int| 0 <= i < j < s.len() ==> (#[trigger] s[i]).0@ != (#[trigger] s[j]).0@
}

impl View for Cls {
    type V = ClsView;

    open spec fn view(&self) -> ClsView {
        ClsView { cls: self.cls@, map: pairs_map(self.map@) }
    }
}

impl Cls {
    pub open spec fn wf(&self) -> bool {
        keys_distinct(self.map@)
    }

    /// A sub-database named by the token's text, with no settings yet.
    pub fn new(t: &Token) -> (r: Cls)
        ensures
            r.wf(),
            r.cls@ == t.text@,
            r.map@.len() == 0,
            r.view() == new_cls_spec(*t),
    {
        let r = Cls { cls: copy_string(&t.text), map: Vec::new() };
        assert(pairs_map(r.map@) =~= Map::<Seq<char>, Seq<char>>::empty());
        r
    }

    /// The position of the setting named `key`, if there is one.
    fn find(&self, key: &String) -> (r: Option<usize>)
        requires
            self.wf(),
        ensures
            r matches Some(i) ==> i < self.map@.len() && self.map@[i as int].0@ == key@,
            r is None ==> forall|i: int| 0 <= i < self.map@.len() ==> (#[trigger] self.map@[i]).0@ != key@,
    {
        let mut i: usize = 0;
        while i < self.map.len()
            invariant
                i <= self.map@.len(),
                forall|k: int| 0 <= k < i ==> (#[trigger] self.map@[k]).0@ != key@,
            decreases self.map@.len() - i,
        {
            if self.map[i].0 == *key {
                return Some(i);
            }
            i = i + 1;
        }
        None
    }

    /// Sets the setting `key` to `value`, adding it if it is new.
    fn set_setting(&mut self, key: &String, value: String)
        requires
            old(self).wf(),
        ensures
            final(self).wf(),
            final(self).cls@ == old(self).cls@,
            final(self).view().map == old(self).view().map.insert(key@, value@),
    {
        let found = self.find(key);
        match found {
            Some(i) => {
                let ghost before = self.map@;
                self.map.set(i, (copy_string(key), value));
                proof {
                    lemma_pairs_map_update(before, i as int, self.map@[i as int]);
                }
            },
            None => {
                let ghost before = self.map@;
                self.map.push((copy_string(key), value));
                proof {
                    assert(self.map@.drop_last() =~= before);
                    assert forall|a: int, b: int| 0 <= a < b < self.map@.len() implies (#[trigger] self.map@[a]).0@
                        != (#[trigger] self.map@[b]).0@ by {
                        if b == before.len() {
                            assert(before[a].0@ != key@);
                        } else {
                            assert(before[a].0@ != before[b].0@);
                        }
                    }
                }
            },
        }
    }

    /// The text of setting `key`, or `default` where there is none.
    pub fn get_or(&self, key: &String, default: &String) -> (r: String)
        requires
            self.wf(),
        ensures
            r@ == lookup_or(self.view().map, key@, default@),
    {
        match self.find(key) {
            Some(i) => {
                proof {
                    lemma_pairs_map_at(self.map@, i as int);
                }
                copy_string(&self.map[i].1)
            },
            None => {
                proof {
                    lemma_pairs_map_absent(self.map@, key@);
                }
                copy_string(default)
            },
        }
    }
}

/// With distinct names, the setting of the name at `i` is the text at `i`.
proof fn lemma_pairs_map_at(s: Seq<(String, String)>, i: int)
    requires
        keys_distinct(s),
        0 <= i < s.len(),
    ensures
        pairs_map(s).contains_key(s[i].0@),
        pairs_map(s)[s[i].0@] == s[i].1@,
    decreases s.len(),
{
    if i < s.len() - 1 {
        let t = s.drop_last();
        assert(keys_distinct(t)) by {
            assert forall|a: int, b: int| 0 <= a < b < t.len() implies (#[trigger] t[a]).0@ != (#[trigger] t[b]).0@ by {
                assert(s[a].0@ != s[b].0@);
            }
        }
        assert(t[i] == s[i]);
        lemma_pairs_map_at(t, i);
        assert(s[i].0@ != s.last().0@);
    }
}

/// A name that no pair has has no setting.
proof fn lemma_pairs_map_absent(s: Seq<(String, String)>, k: Seq<char>)
    requires
        forall|i: int| 0 <= i < s.len() ==> (#[trigger] s[i]).0@ != k,
    ensures
        !pairs_map(s).contains_key(k),
    decreases s.len(),
{
    if s.len() > 0 {
        let t = s.drop_last();
        assert forall|i: int| 0 <= i < t.len() implies (#[trigger] t[i]).0@ != k by {
            assert(t[i] == s[i]);
        }
        lemma_pairs_map_absent(t, k);
        assert(s.last() == s[s.len() - 1]);
    }
}

/// Replacing the pair at `i` by one with the same name changes only that setting.
proof fn lemma_pairs_map_update(s: Seq<(String, String)>, i: int, p: (String, String))
    requires
        keys_distinct(s),
        0 <= i < s.len(),
        p.0@ == s[i].0@,
    ensures
        keys_distinct(s.update(i, p)),
        pairs_map(s.update(i, p)) == pairs_map(s).insert(p.0@, p.1@),
    decreases s.len(),
{
    let u = s.update(i, p);
    assert forall|a: int, b: int| 0 <= a < b < u.len() implies (#[trigger] u[a]).0@ != (#[trigger] u[b]).0@ by {
        assert(s[a].0@ != s[b].0@);
    }
    let t = s.drop_last();
    if i == s.len() - 1 {
        assert(u.drop_last() =~= t);
        assert(pairs_map(u) =~= pairs_map(s).insert(p.0@, p.1@));
    } else {
        assert(keys_distinct(t)) by {
            assert forall|a: int, b: int| 0 <= a < b < t.len() implies (#[trigger] t[a]).0@ != (#[trigger] t[b]).0@ by {
                assert(s[a].0@ != s[b].0@);
            }
        }
        assert(u.drop_last() =~= t.update(i, p));
        lemma_pairs_map_update(t, i, p);
        assert(s[i].0@ != s.last().0@);
        assert(pairs_map(u) =~= pairs_map(s).insert(p.0@, p.1@));
    }
}

/// The setting `k` of `m`, or `d` where it has none.
pub open spec fn lookup_or(m: Map<Seq<char>, Seq<char>>, k: Seq<char>, d: Seq<char>) -> Seq<char> {
    if m.contains_key(k) {
        m[k]
    } else {
        d
    }
}

/// The sub-database that a token names, with no settings.
pub open spec fn new_cls_spec(t: Token) -> ClsView {
    ClsView { cls: t.text@, map: Map::empty() }
}

/// The state of the reader between two tokens: the sub-databases finished,
/// the current one, the line of the last token, the column at which the
/// current sub-database's name stands, the setting being filled, and whether
/// tokens on the current line go into that setting.
pub struct ParseState {
    pub done: Seq<ClsView>,
    pub cur: ClsView,
    pub line: int,
    pub indent: int,
    pub key: Seq<char>,
    pub is_key: bool,
}

/// The state after the first token, which names the first sub-database.
pub open spec fn parse_start(t: Token) -> ParseState {
    ParseState {
        done: Seq::empty(),
        cur: new_cls_spec(t),
        line: t.line as int,
        indent: t.column as int,
        key: Seq::empty(),
        is_key: true,
    }
}

/// One token read. A token that opens a new line at or left of the current
/// name's column starts a new sub-database; one that opens a new line further
/// right starts a setting named by it; any other token is added to the
/// setting being filled, if any.
pub open spec fn parse_step(st: ParseState, t: Token) -> ParseState {
    if t.line != st.line {
        if t.column <= st.indent {
            ParseState {
                done: st.done.push(st.cur),
                cur: new_cls_spec(t),
                line: t.line as int,
                indent: t.column as int,
                key: st.key,
                is_key: false,
            }
        } else {
            ParseState {
                cur: ClsView { cls: st.cur.cls, map: st.cur.map.insert(t.text@, Seq::empty()) },
                line: t.line as int,
                key: t.text@,
                is_key: true,
                ..st
            }
        }
    } else if st.is_key {
        ParseState {
            cur: ClsView {
                cls: st.cur.cls,
                map: st.cur.map.insert(st.key, st.cur.map[st.key] + t.text@),
            },
            ..st
        }
    } else {
        st
    }
}

/// The state after the first `n` tokens.
pub open spec fn parse_fold(tokens: Seq<Token>, n: nat) -> ParseState
    decreases n,
{
    if n <= 1 {
        parse_start(tokens[0])
    } else {
        parse_step(parse_fold(tokens, (n - 1) as nat), tokens[n - 1])
    }
}

/// The sub-databases that a token list declares.
pub open spec fn parse_spec(tokens: Seq<Token>) -> Seq<ClsView> {
    if tokens.len() == 0 {
        Seq::empty()
    } else {
        let st = parse_fold(tokens, tokens.len());
        st.done.push(st.cur)
    }
}

/// The reader fails on a token that follows the first one on its line: there
/// is no setting yet for it to go into.
pub open spec fn parse_accepts(tokens: Seq<Token>) -> bool {
    tokens.len() < 2 || tokens[1].line != tokens[0].line
}

/// The views of a list of sub-databases.
pub open spec fn cls_views(s: Seq<Cls>) -> Seq<ClsView> {
    s.map_values(|c: Cls| c.view())
}

/// Reads the sub-databases declared by `tokens[start..]`.
fn parse_from(tokens: &Vec<Token>, start: usize) -> (r: Vec<Cls>)
    requires
        start <= tokens@.len(),
        parse_accepts(tokens@.skip(start as int)),
    ensures
        cls_views(r@) == parse_spec(tokens@.skip(start as int)),
        forall|i: int| 0 <= i < r@.len() ==> (#[trigger] r@[i]).wf(),
{
    let ghost toks = tokens@.skip(start as int);
    let mut vec: Vec<Cls> = Vec::new();
    if start >= tokens.len() {
        return vec;
    }
    let first = &tokens[start];
    let mut cls = Cls::new(first);
    let mut line: usize = first.line;
    let mut indent_base: usize = first.column;
    let mut key = String::new();
    let mut is_key = true;
    let mut i: usize = start + 1;
    assert(toks[0] == tokens@[start as int]);
    while i < tokens.len()
        invariant
            toks == tokens@.skip(start as int),
            parse_accepts(toks),
            start < i <= tokens@.len(),
            cls.wf(),
            forall|k: int| 0 <= k < vec@.len() ==> (#[trigger] vec@[k]).wf(),
            ({
                let st = parse_fold(toks, (i - start) as nat);
                &&& st.done == cls_views(vec@)
                &&& st.cur == cls.view()
                &&& st.line == line
                &&& st.indent == indent_base
                &&& st.key == key@
                &&& st.is_key == is_key
            }),
            i - start >= 2 ==> (is_key ==> cls.view().map.contains_key(key@)),
            i - start == 1 ==> line == toks[0].line,
        decreases tokens@.len() - i,
    {
        let t = &tokens[i];
        let ghost k = (i - start) as nat;
        let ghost st = parse_fold(toks, k);
        assert(toks[k as int] == *t);
        assert(parse_fold(toks, k + 1) == parse_step(st, *t));
        if t.line != line {
            line = t.line;
            if t.column <= indent_base {
                let fresh = Cls::new(t);
                let finished = cls;
                cls = fresh;
                let ghost before = vec@;
                vec.push(finished);
                assert(cls_views(vec@) =~= cls_views(before).push(finished.view()));
                is_key = false;
                indent_base = t.column;
            } else {
                key = copy_string(&t.text);
                cls.set_setting(&key, String::new());
                is_key = true;
            }
        } else if is_key {
            let empty = String::new();
            let current = cls.get_or(&key, &empty);
            let mut joined = current;
            joined.append(t.text.as_str());
            cls.set_setting(&key, joined);
        }
        i = i + 1;
    }
    let ghost before = vec@;
    let ghost st = parse_fold(toks, (i - start) as nat);
    vec.push(cls);
    assert(cls_views(vec@) =~= cls_views(before).push(st.cur));
    assert(toks.len() == i - start);
    vec
}

/// Reads the sub-databases declared by a token list.
pub fn parse(tokens: &Vec<Token>) -> (r: Vec<Cls>)
    requires
        parse_accepts(tokens@),
    ensures
        cls_views(r@) == parse_spec(tokens@),
        forall|i: int| 0 <= i < r@.len() ==> (#[trigger] r@[i]).wf(),
{
    assert(tokens@.skip(0) =~= tokens@);
    parse_from(tokens, 0)
}


/// The type a `key` or `val` setting defaults to.
pub open spec fn default_type() -> Seq<char> {
    "mdbx::r#type::Bin<'static>"@
}

/// Key types that libmdbx compares as native integers.
pub open spec fn is_integer_key(key: Seq<char>) -> bool {
    key == "u32"@ || key == "u64"@ || key == "usize"@
}

/// Key types whose native bytes only sort in numeric order when read from
/// the end, on a little-endian machine.
pub open spec fn is_reversed_key(key: Seq<char>) -> bool {
    key == "u16"@ || key == "u128"@ || key == "i16"@ || key == "i32"@ || key == "i64"@
        || key == "i128"@ || key == "isize"@
}

/// Value types of fixed size.
pub open spec fn is_fixed_val(val: Seq<char>) -> bool {
    val == "usize"@ || val == "u128"@ || val == "u64"@ || val == "u32"@ || val == "u16"@
        || val == "u8"@ || val == "isize"@ || val == "i128"@ || val == "i64"@ || val == "i32"@
        || val == "i16"@ || val == "i8"@
}

/// The `key` type of a sub-database.
pub open spec fn key_type(c: ClsView) -> Seq<char> {
    lookup_or(c.map, "key"@, default_type())
}

/// The `val` type of a sub-database.
pub open spec fn val_type(c: ClsView) -> Seq<char> {
    lookup_or(c.map, "val"@, default_type())
}

/// The flags written in the `flag` setting, split at `|`.
pub open spec fn written_flags(c: ClsView) -> Seq<Seq<char>> {
    split_spec(lookup_or(c.map, "flag"@, "DB_DEFAULTS"@), '|')
}

/// A sub-database holds several values per key when its flags name DUPSORT.
pub open spec fn is_dup(c: ClsView) -> bool {
    written_flags(c).contains("DUPSORT"@)
}

/// The written flags followed by those that the key and value types call for.
pub open spec fn flag_names(c: ClsView, little_endian: bool) -> Seq<Seq<char>> {
    let base = written_flags(c);
    let key = key_type(c);
    let with_key = if is_integer_key(key) {
        base.push("INTEGERKEY"@)
    } else if is_reversed_key(key) && little_endian {
        base.push("REVERSEKEY"@)
    } else {
        base
    };
    if is_dup(c) && is_fixed_val(val_type(c)) {
        if little_endian {
            with_key.push("DUPFIXED"@).push("REVERSEDUP"@)
        } else {
            with_key.push("DUPFIXED"@)
        }
    } else {
        with_key
    }
}

/// The strictly sorted list of the distinct names in `names`.
pub open spec fn sorted_names(names: Seq<Seq<char>>) -> Seq<Seq<char>> {
    choose|r: Seq<Seq<char>>| strictly_sorted(r) && r.to_set() == names.to_set()
}

/// The flag expression: each name as a path into `mdbx::flag::DB`, joined by `|`.
pub open spec fn flag_expr(sorted: Seq<Seq<char>>) -> Seq<char> {
    join_spec(sorted.map_values(|x: Seq<char>| "mdbx::flag::DB::MDBX_"@ + x), "|"@)
}

/// The kind of a sub-database, as named in `mdbx::db::kind`.
pub open spec fn kind_name(c: ClsView) -> Seq<char> {
    if is_dup(c) {
        "Dup"@
    } else {
        "One"@
    }
}

/// The declaration of one sub-database.
pub open spec fn line_spec(env: Seq<char>, c: ClsView, little_endian: bool) -> Seq<char> {
    "mdbx::Db!("@ + env + ","@ + c.cls + ",mdbx::db::kind::"@ + kind_name(c) + ","@ + key_type(c)
        + ","@ + val_type(c) + ","@ + flag_expr(sorted_names(flag_names(c, little_endian)))
        + ");\n\n"@
}

/// The declarations of a list of sub-databases, one after the other.
pub open spec fn code_spec(env: Seq<char>, cs: Seq<ClsView>, little_endian: bool) -> Seq<char>
    decreases cs.len(),
{
    if cs.len() == 0 {
        Seq::empty()
    } else {
        code_spec(env, cs.drop_last(), little_endian) + line_spec(env, cs.last(), little_endian)
    }
}

/// What the `mdbx!` declaration expands to: its first token names the
/// environment, the rest declare the sub-databases.
pub open spec fn mdbx_spec(tokens: Seq<Token>, little_endian: bool) -> Seq<char> {
    if tokens.len() == 0 {
        Seq::empty()
    } else {
        code_spec(tokens[0].text@, parse_spec(tokens.skip(1)), little_endian)
    }
}

/// The expansion fails on a token beside the first sub-database's name.
pub open spec fn mdbx_accepts(tokens: Seq<Token>) -> bool {
    tokens.len() < 3 || tokens[2].line != tokens[1].line
}

/// A string holding the literal's text.
fn lit(s: &str) -> (r: String)
    ensures
        r@ == s@,
{
    String::from_str(s)
}

/// Whether `names` holds `name`.
fn contains_name(names: &Vec<String>, name: &str) -> (r: bool)
    ensures
        r == views(names@).contains(name@),
{
    let mut i: usize = 0;
    while i < names.len()
        invariant
            i <= names@.len(),
            forall|k: int| 0 <= k < i ==> (#[trigger] views(names@)[k]) != name@,
        decreases names@.len() - i,
    {
        if str_eq(names[i].as_str(), name) {
            assert(views(names@)[i as int] == name@);
            return true;
        }
        assert(views(names@)[i as int] == names@[i as int]@);
        i = i + 1;
    }
    false
}

/// Whether the key type is one that libmdbx compares as a native integer.
fn integer_key(key: &str) -> (r: bool)
    ensures
        r == is_integer_key(key@),
{
    str_eq(key, "u32") || str_eq(key, "u64") || str_eq(key, "usize")
}

/// Whether the key type is a reversed-byte integer key.
fn reversed_key(key: &str) -> (r: bool)
    ensures
        r == is_reversed_key(key@),
{
    str_eq(key, "u16") || str_eq(key, "u128") || str_eq(key, "i16") || str_eq(key, "i32")
        || str_eq(key, "i64") || str_eq(key, "i128") || str_eq(key, "isize")
}

/// Whether the value type has a fixed size.
fn fixed_val(val: &str) -> (r: bool)
    ensures
        r == is_fixed_val(val@),
{
    str_eq(val, "usize") || str_eq(val, "u128") || str_eq(val, "u64") || str_eq(val, "u32")
        || str_eq(val, "u16") || str_eq(val, "u8") || str_eq(val, "isize") || str_eq(val, "i128")
        || str_eq(val, "i64") || str_eq(val, "i32") || str_eq(val, "i16") || str_eq(val, "i8")
}

/// The sorted, distinct flag names of a sub-database, and whether it holds
/// several values per key.
pub fn db_flags(c: &Cls, little_endian: bool) -> (r: (Vec<String>, bool))
    requires
        c.wf(),
    ensures
        r.1 == is_dup(c.view()),
        views(r.0@) == sorted_names(flag_names(c.view(), little_endian)),
{
    let written = c.get_or(&lit("flag"), &lit("DB_DEFAULTS"));
    let key = c.get_or(&lit("key"), &lit("mdbx::r#type::Bin<'static>"));
    let val = c.get_or(&lit("val"), &lit("mdbx::r#type::Bin<'static>"));
    let mut flag = split_at_char(written.as_str(), '|');
    let dup = contains_name(&flag, "DUPSORT");
    let ghost base = views(flag@);
    if integer_key(key.as_str()) {
        flag.push(lit("INTEGERKEY"));
    } else if reversed_key(key.as_str()) && little_endian {
        flag.push(lit("REVERSEKEY"));
    }
    let ghost with_key = views(flag@);
    assert(with_key == if is_integer_key(key@) {
        base.push("INTEGERKEY"@)
    } else if is_reversed_key(key@) && little_endian {
        base.push("REVERSEKEY"@)
    } else {
        base
    });
    if dup && fixed_val(val.as_str()) {
        flag.push(lit("DUPFIXED"));
        if little_endian {
            flag.push(lit("REVERSEDUP"));
        }
    }
    assert(views(flag@) == flag_names(c.view(), little_endian));
    let sorted = sort_dedup(&flag);
    proof {
        lemma_sorted_names(views(sorted@), views(flag@));
    }
    (sorted, dup)
}

/// A strictly sorted list with the elements of `names` is the one
/// `sorted_names` picks.
proof fn lemma_sorted_names(r: Seq<Seq<char>>, names: Seq<Seq<char>>)
    requires
        strictly_sorted(r),
        r.to_set() == names.to_set(),
    ensures
        sorted_names(names) == r,
{
    let s = sorted_names(names);
    assert(strictly_sorted(s) && s.to_set() == names.to_set());
    lemma_sorted_unique(s, r);
}

/// The flag expression for sorted flag names.
fn flag_expression(sorted: &Vec<String>) -> (r: String)
    ensures
        r@ == flag_expr(views(sorted@)),
{
    let mut paths: Vec<String> = Vec::new();
    let mut i: usize = 0;
    while i < sorted.len()
        invariant
            i <= sorted@.len(),
            views(paths@) == views(sorted@).take(i as int).map_values(
                |x: Seq<char>| "mdbx::flag::DB::MDBX_"@ + x,
            ),
        decreases sorted@.len() - i,
    {
        let mut p = lit("mdbx::flag::DB::MDBX_");
        p.append(sorted[i].as_str());
        let ghost before = paths@;
        paths.push(p);
        assert(views(paths@) =~= views(sorted@).take(i + 1).map_values(
            |x: Seq<char>| "mdbx::flag::DB::MDBX_"@ + x,
        )) by {
            assert(views(paths@) =~= views(before).push(p@));
        }
        i = i + 1;
    }
    assert(views(sorted@).take(sorted@.len() as int) =~= views(sorted@));
    join_with(&paths, "|")
}

/// Appends the declaration of one sub-database to `code`.
fn write_line(code: &mut String, env: &str, c: &Cls, little_endian: bool)
    requires
        c.wf(),
    ensures
        final(code)@ == old(code)@ + line_spec(env@, c.view(), little_endian),
{
    let key = c.get_or(&lit("key"), &lit("mdbx::r#type::Bin<'static>"));
    let val = c.get_or(&lit("val"), &lit("mdbx::r#type::Bin<'static>"));
    let (sorted, dup) = db_flags(c, little_endian);
    let flag = flag_expression(&sorted);
    let kind = if dup {
        lit("Dup")
    } else {
        lit("One")
    };
    assert(kind@ == kind_name(c.view()));
    assert(flag@ == flag_expr(sorted_names(flag_names(c.view(), little_endian))));
    let mut line = lit("mdbx::Db!(");
    line.append(env);
    line.append(",");
    line.append(c.cls.as_str());
    line.append(",mdbx::db::kind::");
    line.append(kind.as_str());
    line.append(",");
    line.append(key.as_str());
    line.append(",");
    line.append(val.as_str());
    line.append(",");
    line.append(flag.as_str());
    line.append(");\n\n");
    assert(line@ == line_spec(env@, c.view(), little_endian));
    code.append(line.as_str());
}

/// Expands an `mdbx!` declaration: the first token names the environment;
/// each following sub-database becomes one `mdbx::Db!` declaration, whose
/// flags are the written ones plus those that the key and value types call
/// for, sorted and without repeats.
pub fn mdbx(tokens: &Vec<Token>, little_endian: bool) -> (r: String)
    requires
        mdbx_accepts(tokens@),
    ensures
        r@ == mdbx_spec(tokens@, little_endian),
{
    let mut code = String::new();
    if tokens.len() == 0 {
        return code;
    }
    let env = &tokens[0].text;
    assert(parse_accepts(tokens@.skip(1))) by {
        if tokens@.len() >= 3 {
            assert(tokens@.skip(1)[0] == tokens@[1]);
            assert(tokens@.skip(1)[1] == tokens@[2]);
        }
    }
    let classes = parse_from(tokens, 1);
    let mut i: usize = 0;
    while i < classes.len()
        invariant
            i <= classes@.len(),
            forall|k: int| 0 <= k < classes@.len() ==> (#[trigger] classes@[k]).wf(),
            code@ == code_spec(env@, cls_views(classes@).take(i as int), little_endian),
        decreases classes@.len() - i,
    {
        let ghost cs = cls_views(classes@);
        assert(cs.take(i + 1).drop_last() =~= cs.take(i as int));
        assert(cs.take(i + 1).last() == classes@[i as int].view());
        write_line(&mut code, env.as_str(), &classes[i], little_endian);
        i = i + 1;
    }
    assert(cls_views(classes@).take(classes@.len() as int) =~= cls_views(classes@));
    code
}

/// The expanded flag list of a sub-database is strictly sorted, so holds no
/// flag twice, and holds exactly the written flags and the ones its key and
/// value types call for: INTEGERKEY for `u32`, `u64` and `usize` keys,
/// REVERSEKEY for the other multi-byte integer keys on a little-endian
/// machine, and for a DUPSORT sub-database of fixed-size integer values
/// DUPFIXED, plus REVERSEDUP on a little-endian machine.
pub proof fn law_expanded_flags(c: ClsView, little_endian: bool)
    ensures
        strictly_sorted(sorted_names(flag_names(c, little_endian))),
        forall|x: Seq<char>|
            sorted_names(flag_names(c, little_endian)).contains(x) <==> flag_names(
                c,
                little_endian,
            ).contains(x),
        forall|x: Seq<char>|
            written_flags(c).contains(x) ==> sorted_names(flag_names(c, little_endian)).contains(
                x,
            ),
        is_integer_key(key_type(c)) ==> sorted_names(flag_names(c, little_endian)).contains(
            "INTEGERKEY"@,
        ),
        !is_integer_key(key_type(c)) && is_reversed_key(key_type(c)) && little_endian
            ==> sorted_names(flag_names(c, little_endian)).contains("REVERSEKEY"@),
        is_dup(c) && is_fixed_val(val_type(c)) ==> sorted_names(
            flag_names(c, little_endian),
        ).contains("DUPFIXED"@),
        is_dup(c) && is_fixed_val(val_type(c)) && little_endian ==> sorted_names(
            flag_names(c, little_endian),
        ).contains("REVERSEDUP"@),
{
    let names = flag_names(c, little_endian);
    lemma_sort_spec(names);
    lemma_sorted_names(sort_spec(names), names);
    let r = sorted_names(names);
    assert forall|x: Seq<char>| r.contains(x) <==> names.contains(x) by {
        assert(r.to_set().contains(x) == names.to_set().contains(x));
    }
    let base = written_flags(c);
    let with_key = if is_integer_key(key_type(c)) {
        base.push("INTEGERKEY"@)
    } else if is_reversed_key(key_type(c)) && little_endian {
        base.push("REVERSEKEY"@)
    } else {
        base
    };
    assert forall|x: Seq<char>| base.contains(x) implies names.contains(x) by {
        let k = choose|k: int| 0 <= k < base.len() && base[k] == x;
        assert(with_key[k] == x);
        if is_dup(c) && is_fixed_val(val_type(c)) {
            if little_endian {
                assert(with_key.push("DUPFIXED"@).push("REVERSEDUP"@)[k] == x);
            } else {
                assert(with_key.push("DUPFIXED"@)[k] == x);
            }
        }
    }
    if is_integer_key(key_type(c)) || (is_reversed_key(key_type(c)) && little_endian) {
        let last = with_key.len() - 1;
        let flag = with_key[last];
        assert(names[last] == flag);
    }
    if is_dup(c) && is_fixed_val(val_type(c)) {
        assert(names[with_key.len() as int] == "DUPFIXED"@);
        if little_endian {
            assert(names[with_key.len() + 1int] == "REVERSEDUP"@);
        }
    }
}

/// The expansion depends only on which flags are written, not on their order
/// or repeats: name lists with the same elements give the same sorted list.
pub proof fn law_flags_order_irrelevant(a: Seq<Seq<char>>, b: Seq<Seq<char>>)
    requires
        a.to_set() == b.to_set(),
    ensures
        sorted_names(a) == sorted_names(b),
{
    lemma_sort_spec(a);
    lemma_sort_spec(b);
    lemma_sorted_names(sort_spec(a), a);
    lemma_sorted_names(sort_spec(b), b);
    lemma_sorted_unique(sort_spec(a), sort_spec(b));
}

/// Law: what the declaration of one sub-database says, in terms of its
/// settings. With `k`, `v` the `key` and `val` settings (the `Bin` type where
/// there is none) and `w` the `flag` setting (DB_DEFAULTS where there is none)
/// split at `|`, the declaration is
/// `mdbx::Db!(ENV,NAME,mdbx::db::kind::KIND,k,v,FLAGS);` and an empty line,
/// where KIND is `Dup` when `w` names DUPSORT and `One` otherwise, and FLAGS
/// joins with `|` the paths `mdbx::flag::DB::MDBX_F` of a strictly sorted
/// list of names F, each once, holding exactly: the names in `w`; INTEGERKEY
/// when `k` is `u32`, `u64` or `usize`; REVERSEKEY on a little-endian machine
/// when `k` is otherwise `u16`, `u128`, `i16`, `i32`, `i64`, `i128` or
/// `isize`; and when `w` names DUPSORT and `v` is a fixed-size integer type,
/// DUPFIXED, and REVERSEDUP on a little-endian machine.
pub proof fn law_declaration(env: Seq<char>, c: ClsView, little_endian: bool)
    ensures
        ({
            let k = lookup_or(c.map, "key"@, "mdbx::r#type::Bin<'static>"@);
            let v = lookup_or(c.map, "val"@, "mdbx::r#type::Bin<'static>"@);
            let w = split_spec(lookup_or(c.map, "flag"@, "DB_DEFAULTS"@), '|');
            let dup = w.contains("DUPSORT"@);
            let int_key = k == "u32"@ || k == "u64"@ || k == "usize"@;
            let rev_key = k == "u16"@ || k == "u128"@ || k == "i16"@ || k == "i32"@ || k == "i64"@
                || k == "i128"@ || k == "isize"@;
            let fixed_val = v == "usize"@ || v == "u128"@ || v == "u64"@ || v == "u32"@ || v
                == "u16"@ || v == "u8"@ || v == "isize"@ || v == "i128"@ || v == "i64"@ || v
                == "i32"@ || v == "i16"@ || v == "i8"@;
            let f = sorted_names(flag_names(c, little_endian));
            &&& line_spec(env, c, little_endian) == "mdbx::Db!("@ + env + ","@ + c.cls
                + ",mdbx::db::kind::"@ + (if dup {
                "Dup"@
            } else {
                "One"@
            }) + ","@ + k + ","@ + v + ","@ + join_spec(
                f.map_values(|x: Seq<char>| "mdbx::flag::DB::MDBX_"@ + x),
                "|"@,
            ) + ");\n\n"@
            &&& strictly_sorted(f)
            &&& forall|x: Seq<char>|
                #![trigger f.contains(x)]
                f.contains(x) <==> {
                    ||| w.contains(x)
                    ||| (x == "INTEGERKEY"@ && int_key)
                    ||| (x == "REVERSEKEY"@ && little_endian && !int_key && rev_key)
                    ||| (x == "DUPFIXED"@ && dup && fixed_val)
                    ||| (x == "REVERSEDUP"@ && little_endian && dup && fixed_val)
                }
        }),
{
    law_expanded_flags(c, little_endian);
    let names = flag_names(c, little_endian);
    let base = written_flags(c);
    let with_key = if is_integer_key(key_type(c)) {
        base.push("INTEGERKEY"@)
    } else if is_reversed_key(key_type(c)) && little_endian {
        base.push("REVERSEKEY"@)
    } else {
        base
    };
    assert forall|x: Seq<char>| with_key.contains(x) <==> (base.contains(x) || (x == "INTEGERKEY"@
        && is_integer_key(key_type(c))) || (x == "REVERSEKEY"@ && little_endian && !is_integer_key(
        key_type(c)) && is_reversed_key(key_type(c)))) by {
        if with_key.contains(x) {
            let i = choose|i: int| 0 <= i < with_key.len() && with_key[i] == x;
            if i < base.len() {
                assert(base[i] == x);
            }
        }
        if base.contains(x) {
            let i = choose|i: int| 0 <= i < base.len() && base[i] == x;
            assert(with_key[i] == x);
        }
        if (x == "INTEGERKEY"@ && is_integer_key(key_type(c))) || (x == "REVERSEKEY"@
            && little_endian && !is_integer_key(key_type(c)) && is_reversed_key(key_type(c))) {
            assert(with_key[with_key.len() - 1] == x);
        }
    }
    assert forall|x: Seq<char>| names.contains(x) <==> (with_key.contains(x) || (x == "DUPFIXED"@
        && is_dup(c) && is_fixed_val(val_type(c))) || (x == "REVERSEDUP"@ && little_endian
        && is_dup(c) && is_fixed_val(val_type(c)))) by {
        if is_dup(c) && is_fixed_val(val_type(c)) {
            let a = with_key.push("DUPFIXED"@);
            if little_endian {
                let b = a.push("REVERSEDUP"@);
                assert(names == b);
                if b.contains(x) {
                    let i = choose|i: int| 0 <= i < b.len() && b[i] == x;
                    if i < with_key.len() {
                        assert(with_key[i] == x);
                    }
                }
                if with_key.contains(x) {
                    let i = choose|i: int| 0 <= i < with_key.len() && with_key[i] == x;
                    assert(b[i] == x);
                }
                if x == "DUPFIXED"@ {
                    assert(b[with_key.len() as int] == x);
                }
                if x == "REVERSEDUP"@ {
                    assert(b[with_key.len() + 1int] == x);
                }
            } else {
                assert(names == a);
                if a.contains(x) {
                    let i = choose|i: int| 0 <= i < a.len() && a[i] == x;
                    if i < with_key.len() {
                        assert(with_key[i] == x);
                    }
                }
                if with_key.contains(x) {
                    let i = choose|i: int| 0 <= i < with_key.len() && with_key[i] == x;
                    assert(a[i] == x);
                }
                if x == "DUPFIXED"@ {
                    assert(a[with_key.len() as int] == x);
                }
            }
        }
    }
}

/// The texts of the tokens, run together.
pub open spec fn texts(tokens: Seq<Token>) -> Seq<char>
    decreases tokens.len(),
{
    if tokens.len() == 0 {
        Seq::empty()
    } else {
        texts(tokens.drop_last()) + tokens.last().text@
    }
}

proof fn lemma_parse_flat(tokens: Seq<Token>, n: nat)
    requires
        1 <= n <= tokens.len(),
        forall|i: int| 0 < i < tokens.len() ==> (#[trigger] tokens[i]).line != tokens[i - 1].line,
        forall|i: int| 0 <= i < tokens.len() ==> (#[trigger] tokens[i]).column == tokens[0].column,
    ensures
        parse_fold(tokens, n).done == tokens.take(n - 1).map_values(|t: Token| new_cls_spec(t)),
        parse_fold(tokens, n).cur == new_cls_spec(tokens[n - 1]),
        parse_fold(tokens, n).line == tokens[n - 1].line,
        parse_fold(tokens, n).indent == tokens[0].column,
    decreases n,
{
    if n == 1 {
        assert(tokens.take(0).map_values(|t: Token| new_cls_spec(t)) =~= Seq::<ClsView>::empty());
    } else {
        lemma_parse_flat(tokens, (n - 1) as nat);
        assert(tokens[n - 1].line != tokens[n - 2].line);
        assert(tokens.take(n - 1).map_values(|t: Token| new_cls_spec(t)) =~= tokens.take(
            n - 2,
        ).map_values(|t: Token| new_cls_spec(t)).push(new_cls_spec(tokens[n - 2])));
    }
}

/// Law: a list of names, each on a line of its own and all in one column,
/// declares one sub-database per name, in order, with no settings.
pub proof fn law_parse_names(tokens: Seq<Token>)
    requires
        forall|i: int| 0 < i < tokens.len() ==> (#[trigger] tokens[i]).line != tokens[i - 1].line,
        forall|i: int| 0 <= i < tokens.len() ==> (#[trigger] tokens[i]).column == tokens[0].column,
    ensures
        parse_spec(tokens) == tokens.map_values(
            |t: Token| ClsView { cls: t.text@, map: Map::empty() },
        ),
{
    if tokens.len() > 0 {
        lemma_parse_flat(tokens, tokens.len());
        assert(parse_spec(tokens) =~= tokens.map_values(
            |t: Token| ClsView { cls: t.text@, map: Map::empty() },
        ));
    } else {
        assert(parse_spec(tokens) =~= tokens.map_values(
            |t: Token| ClsView { cls: t.text@, map: Map::empty() },
        ));
    }
}

proof fn lemma_parse_setting(tokens: Seq<Token>, n: nat)
    requires
        2 <= n <= tokens.len(),
        tokens[1].line != tokens[0].line,
        tokens[1].column > tokens[0].column,
        forall|i: int| 2 <= i < tokens.len() ==> (#[trigger] tokens[i]).line == tokens[1].line,
    ensures
        parse_fold(tokens, n).done == Seq::<ClsView>::empty(),
        parse_fold(tokens, n).cur == (ClsView {
            cls: tokens[0].text@,
            map: Map::empty().insert(tokens[1].text@, texts(tokens.subrange(2, n as int))),
        }),
        parse_fold(tokens, n).line == tokens[1].line,
        parse_fold(tokens, n).key == tokens[1].text@,
        parse_fold(tokens, n).is_key,
    decreases n,
{
    if n == 2 {
        assert(texts(tokens.subrange(2, 2)) == Seq::<char>::empty()) by {
            assert(tokens.subrange(2, 2).len() == 0);
        }
        assert(parse_fold(tokens, 1) == parse_start(tokens[0]));
        assert(parse_fold(tokens, 2) == parse_step(parse_start(tokens[0]), tokens[1]));
        assert(parse_start(tokens[0]).cur.map.insert(tokens[1].text@, Seq::<char>::empty()) =~= Map::<
            Seq<char>,
            Seq<char>,
        >::empty().insert(tokens[1].text@, texts(tokens.subrange(2, 2))));
    } else {
        lemma_parse_setting(tokens, (n - 1) as nat);
        assert(parse_fold(tokens, n) == parse_step(parse_fold(tokens, (n - 1) as nat), tokens[n - 1]));
        assert(tokens[n - 1].line == tokens[1].line);
        let s = tokens.subrange(2, n as int);
        assert(s.drop_last() =~= tokens.subrange(2, n - 1));
        assert(s.last() == tokens[n - 1]);
        let m = Map::<Seq<char>, Seq<char>>::empty().insert(
            tokens[1].text@,
            texts(tokens.subrange(2, n - 1)),
        );
        assert(m.insert(tokens[1].text@, m[tokens[1].text@] + tokens[n - 1].text@) =~= Map::<
            Seq<char>,
            Seq<char>,
        >::empty().insert(tokens[1].text@, texts(s)));
    }
}

/// Law: a name followed by one setting line, indented further than the name,
/// declares one sub-database of that name with that one setting, whose text
/// is the rest of the line's tokens run together.
pub proof fn law_parse_setting(tokens: Seq<Token>)
    requires
        tokens.len() >= 2,
        tokens[1].line != tokens[0].line,
        tokens[1].column > tokens[0].column,
        forall|i: int| 2 <= i < tokens.len() ==> (#[trigger] tokens[i]).line == tokens[1].line,
    ensures
        parse_spec(tokens) == seq![
            ClsView {
                cls: tokens[0].text@,
                map: Map::empty().insert(tokens[1].text@, texts(tokens.subrange(2, tokens.len() as int))),
            },
        ],
{
    lemma_parse_setting(tokens, tokens.len());
    assert(parse_spec(tokens) =~= seq![
        ClsView {
            cls: tokens[0].text@,
            map: Map::empty().insert(tokens[1].text@, texts(tokens.subrange(2, tokens.len() as int))),
        },
    ]);
}

} // verus!
