//! The values and the syntax tree of the configuration language.

use vstd::prelude::*;

use crate::integer::{decimal, decimal_int, i64_text, push_decimal};
use crate::number::{integer_of, plain, Number};
use crate::text::same;

verus! {

// ── Span ─────────────────────────────────────────────────────────────────────

/// A stretch of source text: byte offsets, and the line and column of its
/// start, both counted from one.
#[derive(Debug, Clone, Copy, PartialEq, Eq, Structural)]
pub struct Span {
    pub start: usize,
    pub end: usize,
    pub line: u32,
    pub col: u32,
}

impl Default for Span {
    fn default() -> (r: Self)
        ensures
            r == (Span { start: 0, end: 0, line: 0, col: 0 }),
    {
        Span { start: 0, end: 0, line: 0, col: 0 }
    }
}

pub open spec fn merged(a: Span, b: Span) -> Span {
    Span {
        start: if a.start <= b.start {
            a.start
        } else {
            b.start
        },
        end: if a.end >= b.end {
            a.end
        } else {
            b.end
        },
        line: if a.line <= b.line {
            a.line
        } else {
            b.line
        },
        col: a.col,
    }
}

impl Span {
    pub fn new(start: usize, end: usize, line: u32, col: u32) -> (r: Self)
        ensures
            r == (Span { start, end, line, col }),
    {
        Span { start, end, line, col }
    }

    /// The smallest stretch that holds both; the column is that of `self`.
    pub fn merge(self, other: Self) -> (r: Self)
        ensures
            r == merged(self, other),
    {
        Span {
            start: if self.start <= other.start {
                self.start
            } else {
                other.start
            },
            end: if self.end >= other.end {
                self.end
            } else {
                other.end
            },
            line: if self.line <= other.line {
                self.line
            } else {
                other.line
            },
            col: self.col,
        }
    }
}

// ── Value ────────────────────────────────────────────────────────────────────

#[derive(Debug, Clone, Copy, PartialEq, Eq, Structural)]
pub enum Unit {
    Px,
    Hz,
    Percent,
    Ms,
}

impl Unit {
    /// The suffix that writes the unit.
    pub open spec fn suffix(self) -> Seq<char> {
        match self {
            Unit::Px => "px"@,
            Unit::Hz => "hz"@,
            Unit::Percent => "%"@,
            Unit::Ms => "ms"@,
        }
    }

    pub fn as_str(self) -> (r: &'static str)
        ensures
            r@ == self.suffix(),
    {
        match self {
            Unit::Px => "px",
            Unit::Hz => "hz",
            Unit::Percent => "%",
            Unit::Ms => "ms",
        }
    }
}

#[derive(Debug)]
pub struct Spanned<T> {
    pub value: T,
    pub span: Span,
}

impl<T> Spanned<T> {
    pub fn new(value: T, span: Span) -> (r: Self)
        ensures
            r == (Spanned { value, span }),
    {
        Spanned { value, span }
    }
}

#[derive(Debug)]
pub enum Value {
    String(String),
    Ident(String),
    Int(i64),
    Float(Number),
    Dimension(Number, Unit),
    /// Red, green, blue, alpha.
    Color(u8, u8, u8, u8),
    Array(Vec<Spanned<Value>>),
    Bool(bool),
}

/// What a [`Value`] holds.
pub enum ValueView {
    String(Seq<char>),
    Ident(Seq<char>),
    Int(i64),
    Float(Seq<char>),
    Dimension(Seq<char>, Unit),
    Color(u8, u8, u8, u8),
    Array(Seq<SpannedView>),
    Bool(bool),
}

/// A value and where it stands.
pub struct SpannedView {
    pub value: ValueView,
    pub span: Span,
}

pub open spec fn value_view(v: Value) -> ValueView
    decreases v,
{
    match v {
        Value::String(s) => ValueView::String(s@),
        Value::Ident(s) => ValueView::Ident(s@),
        Value::Int(n) => ValueView::Int(n),
        Value::Float(n) => ValueView::Float(n@),
        Value::Dimension(n, u) => ValueView::Dimension(n@, u),
        Value::Color(r, g, b, a) => ValueView::Color(r, g, b, a),
        Value::Array(items) => ValueView::Array(
            Seq::new(
                items@.len(),
                |i: int|
                    if 0 <= i < items@.len() {
                        SpannedView { value: value_view(items@[i].value), span: items@[i].span }
                    } else {
                        arbitrary()
                    },
            ),
        ),
        Value::Bool(b) => ValueView::Bool(b),
    }
}

pub open spec fn spanned_view(v: Spanned<Value>) -> SpannedView {
    SpannedView { value: value_view(v.value), span: v.span }
}

pub open spec fn values_view(v: Seq<Spanned<Value>>) -> Seq<SpannedView> {
    Seq::new(v.len(), |i: int| spanned_view(v[i]))
}

pub proof fn lemma_array_view(v: Value)
    ensures
        v matches Value::Array(items) ==> value_view(v) == ValueView::Array(values_view(items@)),
{
    if let Value::Array(items) = v {
        assert(value_view(v)->Array_0 =~= values_view(items@));
    }
}

impl Clone for Value {
    fn clone(&self) -> (r: Self)
        ensures
            value_view(r) == value_view(*self),
        decreases self,
    {
        match self {
            Value::String(s) => Value::String(s.clone()),
            Value::Ident(s) => Value::Ident(s.clone()),
            Value::Int(n) => Value::Int(*n),
            Value::Float(n) => Value::Float(n.clone()),
            Value::Dimension(n, u) => Value::Dimension(n.clone(), *u),
            Value::Color(r, g, b, a) => Value::Color(*r, *g, *b, *a),
            Value::Array(items) => {
                let mut copy: Vec<Spanned<Value>> = Vec::new();
                let mut i: usize = 0;
                while i < items.len()
                    invariant
                        i <= items.len(),
                        copy@.len() == i,
                        forall|k: int|
                            0 <= k < i ==> spanned_view(#[trigger] copy@[k]) == spanned_view(
                                items@[k],
                            ),
                        decreases_to!(self => items),
                    decreases items.len() - i,
                {
                    assert(decreases_to!(items => items@[i as int]));
                    let v = items[i].value.clone();
                    copy.push(Spanned { value: v, span: items[i].span });
                    i += 1;
                }
                let out = Value::Array(copy);
                proof {
                    lemma_array_view(out);
                    lemma_array_view(*self);
                    assert(values_view(copy@) =~= values_view(items@));
                }
                out
            },
            Value::Bool(b) => Value::Bool(*b),
        }
    }
}

/// The words that stand for true and false.
pub open spec fn truth_of(word: Seq<char>) -> Option<bool> {
    if word == "true"@ || word == "yes"@ || word == "on"@ {
        Some(true)
    } else if word == "false"@ || word == "no"@ || word == "off"@ {
        Some(false)
    } else {
        None
    }
}

/// Whether `word` stands for true or false.
pub fn truth(word: &str) -> (r: Option<bool>)
    ensures
        r == truth_of(word@),
{
    if same(word, "true") || same(word, "yes") || same(word, "on") {
        Some(true)
    } else if same(word, "false") || same(word, "no") || same(word, "off") {
        Some(false)
    } else {
        None
    }
}

impl ValueView {
    pub open spec fn text(self) -> Option<Seq<char>> {
        match self {
            ValueView::String(s) => Some(s),
            ValueView::Ident(s) => Some(s),
            _ => None,
        }
    }

    pub open spec fn arg_text(self) -> Option<Seq<char>> {
        match self {
            ValueView::String(s) => Some(s),
            ValueView::Ident(s) => Some(s),
            ValueView::Int(n) => Some(decimal_int(n as int)),
            ValueView::Float(x) => Some(plain(x)),
            _ => None,
        }
    }

    pub open spec fn integer(self) -> Option<i64> {
        match self {
            ValueView::Int(n) => Some(n),
            ValueView::Float(x) => Some(integer_of(x, i64::MIN as int, i64::MAX as int) as i64),
            ValueView::Dimension(x, _) => Some(
                integer_of(x, i64::MIN as int, i64::MAX as int) as i64,
            ),
            _ => None,
        }
    }

    /// The literal of a number.
    pub open spec fn literal(self) -> Option<Seq<char>> {
        match self {
            ValueView::Float(x) => Some(x),
            ValueView::Dimension(x, _) => Some(x),
            ValueView::Int(n) => Some(decimal_int(n as int)),
            _ => None,
        }
    }

    /// A count in `unit`: a bare integer, cut to 32 bits, or a dimension in
    /// that unit, held within them.
    pub open spec fn count(self, unit: Unit) -> Option<u32> {
        match self {
            ValueView::Dimension(x, u) => if u == unit {
                Some(integer_of(x, 0, u32::MAX as int) as u32)
            } else {
                None
            },
            ValueView::Int(n) => Some(n as u32),
            _ => None,
        }
    }

    pub open spec fn color(self) -> Option<(u8, u8, u8, u8)> {
        match self {
            ValueView::Color(r, g, b, a) => Some((r, g, b, a)),
            _ => None,
        }
    }

    pub open spec fn truth(self) -> Option<bool> {
        match self {
            ValueView::Bool(b) => Some(b),
            ValueView::Ident(s) => truth_of(s),
            _ => None,
        }
    }
}

impl Value {
    pub fn as_str(&self) -> (r: Option<&str>)
        ensures
            match r {
                Some(s) => value_view(*self).text() == Some(s@),
                None => value_view(*self).text() is None,
            },
    {
        match self {
            Value::String(s) => Some(s.as_str()),
            Value::Ident(s) => Some(s.as_str()),
            _ => None,
        }
    }

    /// Like `as_str`, but also gives numbers as text, for arguments of key
    /// bindings.
    pub fn as_arg_string(&self) -> (r: Option<String>)
        ensures
            match r {
                Some(s) => value_view(*self).arg_text() == Some(s@),
                None => value_view(*self).arg_text() is None,
            },
    {
        match self {
            Value::String(s) => Some(s.clone()),
            Value::Ident(s) => Some(s.clone()),
            Value::Int(n) => Some(i64_text(*n)),
            Value::Float(x) => Some(x.plain_text()),
            _ => None,
        }
    }

    pub fn as_i64(&self) -> (r: Option<i64>)
        ensures
            r == value_view(*self).integer(),
    {
        match self {
            Value::Int(n) => Some(*n),
            Value::Float(x) => Some(x.to_i64()),
            Value::Dimension(x, _) => Some(x.to_i64()),
            _ => None,
        }
    }

    /// The number that the value holds.
    pub fn as_f64(&self) -> (r: Option<Number>)
        ensures
            match r {
                Some(x) => value_view(*self).literal() == Some(x@),
                None => value_view(*self).literal() is None,
            },
    {
        match self {
            Value::Float(x) => Some(x.clone()),
            Value::Dimension(x, _) => Some(x.clone()),
            Value::Int(n) => Some(Number::from_int(*n)),
            _ => None,
        }
    }

    pub fn as_px(&self) -> (r: Option<u32>)
        ensures
            r == value_view(*self).count(Unit::Px),
    {
        self.as_count(Unit::Px)
    }

    pub fn as_hz(&self) -> (r: Option<u32>)
        ensures
            r == value_view(*self).count(Unit::Hz),
    {
        self.as_count(Unit::Hz)
    }

    fn as_count(&self, unit: Unit) -> (r: Option<u32>)
        ensures
            r == value_view(*self).count(unit),
    {
        match self {
            Value::Dimension(x, u) => if *u == unit {
                Some(x.to_u32())
            } else {
                None
            },
            Value::Int(n) => Some(#[verifier::truncate] (*n as u32)),
            _ => None,
        }
    }

    pub fn as_color(&self) -> (r: Option<[u8; 4]>)
        ensures
            match r {
                Some(c) => value_view(*self).color() == Some((c@[0], c@[1], c@[2], c@[3])),
                None => value_view(*self).color() is None,
            },
    {
        match self {
            Value::Color(r, g, b, a) => Some([*r, *g, *b, *a]),
            _ => None,
        }
    }

    pub fn as_bool(&self) -> (r: Option<bool>)
        ensures
            r == value_view(*self).truth(),
    {
        match self {
            Value::Bool(b) => Some(*b),
            Value::Ident(s) => truth(s.as_str()),
            _ => None,
        }
    }

    pub fn as_array(&self) -> (r: Option<&[Spanned<Value>]>)
        ensures
            match r {
                Some(v) => value_view(*self) == ValueView::Array(values_view(v@)),
                None => !(value_view(*self) is Array),
            },
    {
        proof {
            lemma_array_view(*self);
        }
        match self {
            Value::Array(v) => Some(v.as_slice()),
            _ => None,
        }
    }
}

// ── Syntax tree ──────────────────────────────────────────────────────────────

#[derive(Debug)]
pub struct Assignment {
    pub key: Spanned<String>,
    pub value: Spanned<Value>,
}

#[derive(Debug)]
pub struct Block {
    pub name: Spanned<String>,
    pub label: Option<Spanned<String>>,
    pub items: Vec<Item>,
    pub span: Span,
}

#[derive(Debug)]
pub enum Item {
    Assignment(Assignment),
    Block(Block),
}

#[derive(Debug)]
pub struct ConfigFile {
    pub items: Vec<Item>,
}

/// A word and where it stands.
pub struct WordView {
    pub text: Seq<char>,
    pub span: Span,
}

pub struct BlockView {
    pub name: WordView,
    pub label: Option<WordView>,
    pub items: Seq<ItemView>,
    pub span: Span,
}

/// What an [`Item`] holds.
pub enum ItemView {
    Assignment { key: WordView, value: SpannedView },
    Block(BlockView),
}

pub open spec fn word_view(w: Spanned<String>) -> WordView {
    WordView { text: w.value@, span: w.span }
}

pub open spec fn label_view(w: Option<Spanned<String>>) -> Option<WordView> {
    match w {
        Some(w) => Some(word_view(w)),
        None => None,
    }
}

pub open spec fn item_view(i: Item) -> ItemView
    decreases i,
{
    match i {
        Item::Assignment(a) => ItemView::Assignment {
            key: word_view(a.key),
            value: spanned_view(a.value),
        },
        Item::Block(b) => ItemView::Block(
            BlockView {
                name: word_view(b.name),
                label: label_view(b.label),
                items: Seq::new(
                    b.items@.len(),
                    |k: int|
                        if 0 <= k < b.items@.len() {
                            item_view(b.items@[k])
                        } else {
                            arbitrary()
                        },
                ),
                span: b.span,
            },
        ),
    }
}

pub open spec fn items_view(s: Seq<Item>) -> Seq<ItemView> {
    Seq::new(s.len(), |k: int| item_view(s[k]))
}

pub open spec fn block_view(b: Block) -> BlockView {
    BlockView {
        name: word_view(b.name),
        label: label_view(b.label),
        items: items_view(b.items@),
        span: b.span,
    }
}

pub proof fn lemma_block_view(i: Item)
    ensures
        i matches Item::Block(b) ==> item_view(i) == ItemView::Block(block_view(b)),
{
    if let Item::Block(b) = i {
        assert(item_view(i)->Block_0.items =~= items_view(b.items@));
    }
}

/// The values that `items` assign to `key`, in order.
pub open spec fn values_of(items: Seq<ItemView>, key: Seq<char>) -> Seq<SpannedView>
    decreases items.len(),
{
    if items.len() == 0 {
        Seq::empty()
    } else {
        let before = values_of(items.drop_last(), key);
        match items.last() {
            ItemView::Assignment { key: k, value } => if k.text == key {
                before.push(value)
            } else {
                before
            },
            _ => before,
        }
    }
}

/// The blocks named `name` among `items`, in order.
pub open spec fn blocks_of(items: Seq<ItemView>, name: Seq<char>) -> Seq<BlockView>
    decreases items.len(),
{
    if items.len() == 0 {
        Seq::empty()
    } else {
        let before = blocks_of(items.drop_last(), name);
        match items.last() {
            ItemView::Block(b) => if b.name.text == name {
                before.push(b)
            } else {
                before
            },
            _ => before,
        }
    }
}

/// The keys that `items` assign to, in order.
pub open spec fn keys_of(items: Seq<ItemView>) -> Seq<WordView>
    decreases items.len(),
{
    if items.len() == 0 {
        Seq::empty()
    } else {
        let before = keys_of(items.drop_last());
        match items.last() {
            ItemView::Assignment { key, .. } => before.push(key),
            _ => before,
        }
    }
}

/// The first of `s`, if any.
pub open spec fn first_of<T>(s: Seq<T>) -> Option<T> {
    if s.len() > 0 {
        Some(s.first())
    } else {
        None
    }
}

/// The last of `s`, if any.
pub open spec fn last_of<T>(s: Seq<T>) -> Option<T> {
    if s.len() > 0 {
        Some(s.last())
    } else {
        None
    }
}

/// What `items` assign to `key` in the end: the last assignment wins.
pub open spec fn last_value(items: Seq<ItemView>, key: Seq<char>) -> Option<ValueView> {
    match last_of(values_of(items, key)) {
        Some(v) => Some(v.value),
        None => None,
    }
}

pub open spec fn value_refs_view(v: Seq<&Spanned<Value>>) -> Seq<SpannedView> {
    Seq::new(v.len(), |i: int| spanned_view(*v[i]))
}

pub open spec fn block_refs_view(v: Seq<&Block>) -> Seq<BlockView> {
    Seq::new(v.len(), |i: int| block_view(*v[i]))
}

pub open spec fn word_refs_view(v: Seq<&Spanned<String>>) -> Seq<WordView> {
    Seq::new(v.len(), |i: int| word_view(*v[i]))
}

fn collect_values<'a>(items: &'a Vec<Item>, key: &str) -> (r: Vec<&'a Spanned<Value>>)
    ensures
        value_refs_view(r@) == values_of(items_view(items@), key@),
{
    let mut r: Vec<&'a Spanned<Value>> = Vec::new();
    let ghost all = items_view(items@);
    let mut i: usize = 0;
    assert(value_refs_view(r@) =~= values_of(all.take(0), key@));
    while i < items.len()
        invariant
            i <= items.len(),
            all == items_view(items@),
            value_refs_view(r@) == values_of(all.take(i as int), key@),
        decreases items.len() - i,
    {
        let ghost before = r@;
        match &items[i] {
            Item::Assignment(a) => if same(a.key.value.as_str(), key) {
                r.push(&a.value);
                assert(value_refs_view(r@) =~= value_refs_view(before).push(spanned_view(a.value)));
            },
            Item::Block(_) => {
                proof {
                    lemma_block_view(items@[i as int]);
                }
            },
        }
        i += 1;
        assert(all.take(i as int).drop_last() =~= all.take(i - 1));
    }
    assert(all.take(i as int) =~= all);
    r
}

fn collect_blocks<'a>(items: &'a Vec<Item>, name: &str) -> (r: Vec<&'a Block>)
    ensures
        block_refs_view(r@) == blocks_of(items_view(items@), name@),
{
    let mut r: Vec<&'a Block> = Vec::new();
    let ghost all = items_view(items@);
    let mut i: usize = 0;
    assert(block_refs_view(r@) =~= blocks_of(all.take(0), name@));
    while i < items.len()
        invariant
            i <= items.len(),
            all == items_view(items@),
            block_refs_view(r@) == blocks_of(all.take(i as int), name@),
        decreases items.len() - i,
    {
        let ghost before = r@;
        match &items[i] {
            Item::Assignment(_) => {},
            Item::Block(b) => {
                proof {
                    lemma_block_view(items@[i as int]);
                }
                if same(b.name.value.as_str(), name) {
                    r.push(b);
                    assert(block_refs_view(r@) =~= block_refs_view(before).push(block_view(*b)));
                }
            },
        }
        i += 1;
        assert(all.take(i as int).drop_last() =~= all.take(i - 1));
    }
    assert(all.take(i as int) =~= all);
    r
}

fn collect_keys<'a>(items: &'a Vec<Item>) -> (r: Vec<&'a Spanned<String>>)
    ensures
        word_refs_view(r@) == keys_of(items_view(items@)),
{
    let mut r: Vec<&'a Spanned<String>> = Vec::new();
    let ghost all = items_view(items@);
    let mut i: usize = 0;
    assert(word_refs_view(r@) =~= keys_of(all.take(0)));
    while i < items.len()
        invariant
            i <= items.len(),
            all == items_view(items@),
            word_refs_view(r@) == keys_of(all.take(i as int)),
        decreases items.len() - i,
    {
        let ghost before = r@;
        match &items[i] {
            Item::Assignment(a) => {
                r.push(&a.key);
                assert(word_refs_view(r@) =~= word_refs_view(before).push(word_view(a.key)));
            },
            Item::Block(_) => {
                proof {
                    lemma_block_view(items@[i as int]);
                }
            },
        }
        i += 1;
        assert(all.take(i as int).drop_last() =~= all.take(i - 1));
    }
    assert(all.take(i as int) =~= all);
    r
}

/// Whether `r` is the value that `v` describes.
pub open spec fn is_value(r: Option<&Spanned<Value>>, v: Option<SpannedView>) -> bool {
    match r {
        Some(x) => v == Some(spanned_view(*x)),
        None => v is None,
    }
}

/// Whether `r` is the block that `b` describes.
pub open spec fn is_block(r: Option<&Block>, b: Option<BlockView>) -> bool {
    match r {
        Some(x) => b == Some(block_view(*x)),
        None => b is None,
    }
}

fn first_ref<'a, T>(v: &Vec<&'a T>) -> (r: Option<&'a T>)
    ensures
        match r {
            Some(x) => v@.len() > 0 && *x == *v@[0],
            None => v@.len() == 0,
        },
{
    if v.len() > 0 {
        Some(v[0])
    } else {
        None
    }
}

fn last_ref<'a, T>(v: &Vec<&'a T>) -> (r: Option<&'a T>)
    ensures
        match r {
            Some(x) => v@.len() > 0 && *x == *v@.last(),
            None => v@.len() == 0,
        },
{
    if v.len() > 0 {
        Some(v[v.len() - 1])
    } else {
        None
    }
}

/// What `items` assign to `key` in the end.
pub fn lookup<'a>(items: &'a Vec<Item>, key: &str) -> (r: Option<&'a Value>)
    ensures
        match r {
            Some(v) => last_value(items_view(items@), key@) == Some(value_view(*v)),
            None => last_value(items_view(items@), key@) is None,
        },
{
    let v = collect_values(items, key);
    assert(v@.len() > 0 ==> value_refs_view(v@).last() == spanned_view(*v@.last()));
    match last_ref(&v) {
        Some(s) => Some(&s.value),
        None => None,
    }
}

impl Default for ConfigFile {
    fn default() -> (r: Self)
        ensures
            r.items@.len() == 0,
    {
        ConfigFile { items: Vec::new() }
    }
}

impl ConfigFile {
    pub open spec fn spec_items(&self) -> Seq<ItemView> {
        items_view(self.items@)
    }

    /// All keys that the file assigns to at its top level.
    pub fn assignment_keys(&self) -> (r: Vec<&Spanned<String>>)
        ensures
            word_refs_view(r@) == keys_of(self.spec_items()),
    {
        collect_keys(&self.items)
    }

    pub fn get_all(&self, key: &str) -> (r: Vec<&Spanned<Value>>)
        ensures
            value_refs_view(r@) == values_of(self.spec_items(), key@),
    {
        collect_values(&self.items, key)
    }

    pub fn get(&self, key: &str) -> (r: Option<&Spanned<Value>>)
        ensures
            is_value(r, first_of(values_of(self.spec_items(), key@))),
    {
        let v = self.get_all(key);
        assert(v@.len() > 0 ==> value_refs_view(v@)[0] == spanned_view(*v@[0]));
        first_ref(&v)
    }

    pub fn get_last(&self, key: &str) -> (r: Option<&Spanned<Value>>)
        ensures
            is_value(r, last_of(values_of(self.spec_items(), key@))),
    {
        let v = self.get_all(key);
        assert(v@.len() > 0 ==> value_refs_view(v@).last() == spanned_view(*v@.last()));
        last_ref(&v)
    }

    pub fn blocks(&self, name: &str) -> (r: Vec<&Block>)
        ensures
            block_refs_view(r@) == blocks_of(self.spec_items(), name@),
    {
        collect_blocks(&self.items, name)
    }

    pub fn block(&self, name: &str) -> (r: Option<&Block>)
        ensures
            is_block(r, first_of(blocks_of(self.spec_items(), name@))),
    {
        let v = self.blocks(name);
        assert(v@.len() > 0 ==> block_refs_view(v@)[0] == block_view(*v@[0]));
        first_ref(&v)
    }

    pub fn block_last(&self, name: &str) -> (r: Option<&Block>)
        ensures
            is_block(r, last_of(blocks_of(self.spec_items(), name@))),
    {
        let v = self.blocks(name);
        assert(v@.len() > 0 ==> block_refs_view(v@).last() == block_view(*v@.last()));
        last_ref(&v)
    }
}

impl Block {
    pub open spec fn spec_items(&self) -> Seq<ItemView> {
        items_view(self.items@)
    }

    pub fn get(&self, key: &str) -> (r: Option<&Spanned<Value>>)
        ensures
            is_value(r, last_of(values_of(self.spec_items(), key@))),
    {
        self.get_last(key)
    }

    /// The last assignment wins: later ones override earlier ones.
    pub fn get_last(&self, key: &str) -> (r: Option<&Spanned<Value>>)
        ensures
            is_value(r, last_of(values_of(self.spec_items(), key@))),
    {
        let v = self.get_all(key);
        assert(v@.len() > 0 ==> value_refs_view(v@).last() == spanned_view(*v@.last()));
        last_ref(&v)
    }

    pub fn get_all(&self, key: &str) -> (r: Vec<&Spanned<Value>>)
        ensures
            value_refs_view(r@) == values_of(self.spec_items(), key@),
    {
        collect_values(&self.items, key)
    }

    pub fn blocks(&self, name: &str) -> (r: Vec<&Block>)
        ensures
            block_refs_view(r@) == blocks_of(self.spec_items(), name@),
    {
        collect_blocks(&self.items, name)
    }

    /// All keys that the block assigns to.
    pub fn assignment_keys(&self) -> (r: Vec<&Spanned<String>>)
        ensures
            word_refs_view(r@) == keys_of(self.spec_items()),
    {
        collect_keys(&self.items)
    }
}

/// A later assignment to a key overrides every earlier one.
pub proof fn law_last_assignment_wins(
    items: Seq<ItemView>,
    key: WordView,
    value: SpannedView,
    rest: Seq<ItemView>,
)
    requires
        values_of(rest, key.text).len() == 0,
    ensures
        last_of(
            values_of(items.push(ItemView::Assignment { key, value }) + rest, key.text),
        ) == Some(value),
    decreases rest.len(),
{
    let all = items.push(ItemView::Assignment { key, value }) + rest;
    if rest.len() == 0 {
        assert(all =~= items.push(ItemView::Assignment { key, value }));
        assert(all.drop_last() =~= items);
    } else {
        assert(all.drop_last() =~= items.push(ItemView::Assignment { key, value })
            + rest.drop_last());
        law_last_assignment_wins(items, key, value, rest.drop_last());
    }
}

// ── Errors ───────────────────────────────────────────────────────────────────

#[derive(Debug)]
pub struct ParseError {
    pub message: String,
    pub span: Span,
    pub line: u32,
    pub col: u32,
}

/// A message and where it applies.
pub struct ErrorView {
    pub message: Seq<char>,
    pub span: Span,
}

impl ParseError {
    /// The line and column are those of the span's start.
    pub open spec fn at(self, e: ErrorView) -> bool {
        &&& self.message@ == e.message
        &&& self.span == e.span
        &&& self.line == e.span.line
        &&& self.col == e.span.col
    }

    /// An error with the line and column of `span`.
    pub fn new(message: String, span: Span) -> (r: ParseError)
        ensures
            r.at(ErrorView { message: message@, span }),
    {
        ParseError { message, span, line: span.line, col: span.col }
    }

    /// `line:col: message`.
    pub fn describe(&self) -> (r: String)
        ensures
            r@ == decimal(self.line as nat) + ":"@ + decimal(self.col as nat) + ": "@
                + self.message@,
    {
        let mut r = String::new();
        push_decimal(&mut r, self.line as u64);
        r.append(":");
        push_decimal(&mut r, self.col as u64);
        r.append(": ");
        r.append(self.message.as_str());
        assert(r@ =~= decimal(self.line as nat) + ":"@ + decimal(self.col as nat) + ": "@
            + self.message@);
        r
    }
}

impl Clone for ParseError {
    fn clone(&self) -> (r: Self)
        ensures
            r.message@ == self.message@,
            r.span == self.span,
            r.line == self.line,
            r.col == self.col,
    {
        ParseError {
            message: self.message.clone(),
            span: self.span,
            line: self.line,
            col: self.col,
        }
    }
}

/// Whether `v` holds the errors `e`, in order.
pub open spec fn errors_are(v: Seq<ParseError>, e: Seq<ErrorView>) -> bool {
    v.len() == e.len() && forall|i: int| 0 <= i < v.len() ==> (#[trigger] v[i]).at(e[i])
}

pub struct ParseResult {
    pub file: ConfigFile,
    pub errors: Vec<ParseError>,
}

} // verus!
