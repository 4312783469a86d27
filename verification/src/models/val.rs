//! Values are what arguments to units and emitted captures hold. This module
//! gives them their types, their textual forms and an ordered collection.

use crate::text::{compare_text, lemma_lt_asymmetric, lemma_lt_irreflexive, lemma_lt_total, lemma_lt_transitive, push_signed_decimal, same_text, signed_decimal, text_lt, Rank, Text};
use crate::parser::value::{int_at, int_from};
use crate::text::{char_at, chars_of, has_char, scan, span, CharClass};
use sha1::{Digest, Sha1};
use vstd::prelude::*;
use vstd::string::StringExecFns;

verus! {

/// Denotes the type of a value.
#[derive(Debug, Clone, Copy, PartialEq, Eq, Structural)]
pub enum ValueType {
    String,
    Int,
    Bool,
    Float,
}

impl ValueType {
    /// The type that a name stands for, if it names one.
    pub open spec fn named(s: Seq<char>) -> Option<ValueType> {
        if s == "string"@ {
            Some(ValueType::String)
        } else if s == "int"@ {
            Some(ValueType::Int)
        } else if s == "bool"@ {
            Some(ValueType::Bool)
        } else if s == "float"@ {
            Some(ValueType::Float)
        } else {
            None
        }
    }

    /// The name of the type: `string`, `int`, `bool` or `float`.
    pub open spec fn name(self) -> Seq<char> {
        match self {
            ValueType::String => "string"@,
            ValueType::Int => "int"@,
            ValueType::Bool => "bool"@,
            ValueType::Float => "float"@,
        }
    }

    /// Reads the name of a type. Any other text is handed back as the error.
    pub fn from_str(s: &str) -> (r: Result<ValueType, String>)
        ensures
            match r {
                Ok(t) => Self::named(s@) == Some(t),
                Err(e) => Self::named(s@) is None && e@ == s@,
            },
    {
        if same_text(s, "string") {
            Ok(ValueType::String)
        } else if same_text(s, "int") {
            Ok(ValueType::Int)
        } else if same_text(s, "bool") {
            Ok(ValueType::Bool)
        } else if same_text(s, "float") {
            Ok(ValueType::Float)
        } else {
            Err(String::from_str(s))
        }
    }

    /// The name of the type, as text.
    pub fn to_string(&self) -> (s: String)
        ensures
            s@ == self.name(),
    {
        match self {
            ValueType::String => String::from_str("string"),
            ValueType::Int => String::from_str("int"),
            ValueType::Bool => String::from_str("bool"),
            ValueType::Float => String::from_str("float"),
        }
    }
}

/// A value: a string, an integer, a decimal fraction or a truth value.
///
/// A fraction is kept as the text that spelled it; nothing here computes with it.
#[derive(Debug, PartialEq)]
pub enum Value {
    String(String),
    Int(i32),
    Float(String),
    Bool(bool),
}

/// What a [`Value`] holds, as mathematics.
pub ghost enum ValueView {
    String(Seq<char>),
    Int(int),
    Float(Seq<char>),
    Bool(bool),
}

impl ValueView {
    /// The type of the value.
    pub open spec fn value_type(self) -> ValueType {
        match self {
            ValueView::String(_) => ValueType::String,
            ValueView::Int(_) => ValueType::Int,
            ValueView::Float(_) => ValueType::Float,
            ValueView::Bool(_) => ValueType::Bool,
        }
    }

    /// The text that displays the value.
    pub open spec fn text(self) -> Seq<char> {
        match self {
            ValueView::String(s) => s,
            ValueView::Int(i) => signed_decimal(i),
            ValueView::Float(s) => s,
            ValueView::Bool(b) => if b {
                "true"@
            } else {
                "false"@
            },
        }
    }

    /// The display text cut to `max_len` characters and marked with `...`,
    /// for a string longer than that; the display text, otherwise.
    pub open spec fn tag(self, max_len: int) -> Seq<char> {
        match self {
            ValueView::String(s) => if s.len() > max_len {
                s.take(max_len) + "..."@
            } else {
                s
            },
            _ => self.text(),
        }
    }
}

impl View for Value {
    type V = ValueView;

    open spec fn view(&self) -> ValueView {
        match self {
            Value::String(s) => ValueView::String(s@),
            Value::Int(i) => ValueView::Int(*i as int),
            Value::Float(s) => ValueView::Float(s@),
            Value::Bool(b) => ValueView::Bool(*b),
        }
    }
}

impl Clone for Value {
    fn clone(&self) -> (r: Self)
        ensures
            r@ == self@,
    {
        match self {
            Value::String(s) => Value::String(s.clone()),
            Value::Int(i) => Value::Int(*i),
            Value::Float(s) => Value::Float(s.clone()),
            Value::Bool(b) => Value::Bool(*b),
        }
    }
}

/// Whether `s` is `lower`, in any mix of that and of `upper`, its upper case.
pub open spec fn is_word(s: Seq<char>, lower: Seq<char>, upper: Seq<char>) -> bool {
    s.len() == lower.len() && forall|k: int|
        0 <= k < s.len() ==> #[trigger] s[k] == lower[k] || s[k] == upper[k]
}

/// Whether the exponent of a fraction stands in `s` from `i` to the end: `e`
/// or `E`, an optional sign, and digits.
pub open spec fn is_exponent(s: Seq<char>, i: int) -> bool {
    let digits = if has_char(s, i + 1, '+') || has_char(s, i + 1, '-') {
        i + 2
    } else {
        i + 1
    };
    (has_char(s, i, 'e') || has_char(s, i, 'E')) && digits < s.len() && span(
        s,
        digits,
        CharClass::Digit,
    ) == s.len()
}

/// Whether a decimal number stands in `s` from `i` to the end: digits with a
/// point among, before or after them, or without one, and an exponent after
/// them or not.
pub open spec fn is_number(s: Seq<char>, i: int) -> bool {
    let point = span(s, i, CharClass::Digit);
    let end = if has_char(s, point, '.') {
        span(s, point + 1, CharClass::Digit)
    } else {
        point
    };
    let digits = if has_char(s, point, '.') {
        (point - i) + (end - point - 1)
    } else {
        point - i
    };
    digits > 0 && (end == s.len() || is_exponent(s, end))
}

/// Whether `s` spells a fraction: after an optional sign, `inf`, `infinity` or
/// `nan` in any case, or a decimal number.
pub open spec fn is_fraction(s: Seq<char>) -> bool {
    let start: int = if has_char(s, 0, '+') || has_char(s, 0, '-') {
        1
    } else {
        0
    };
    is_word(s.skip(start), "inf"@, "INF"@) || is_word(s.skip(start), "infinity"@, "INFINITY"@)
        || is_word(s.skip(start), "nan"@, "NAN"@) || is_number(s, start)
}

/// The value that a text stands for where nothing says of what type it is:
/// the first of a truth value, an integer of 32 bits, a fraction, and the text
/// itself, that the whole of it spells.
pub open spec fn value_of(s: Seq<char>) -> ValueView {
    if s == "true"@ {
        ValueView::Bool(true)
    } else if s == "false"@ {
        ValueView::Bool(false)
    } else if int_at(s, 0) is Some && int_at(s, 0).unwrap().0 == s.len() {
        int_at(s, 0).unwrap().1
    } else if is_fraction(s) {
        ValueView::Float(s)
    } else {
        ValueView::String(s)
    }
}

/// Whether the characters of `t` from `start` on are `lower`, in any mix of
/// that and of `upper`.
fn word_at(t: &Text, start: usize, lower: &str, upper: &str) -> (r: bool)
    requires
        start <= t@.len(),
        lower@.len() == upper@.len(),
    ensures
        r == is_word(t@.skip(start as int), lower@, upper@),
{
    let low = chars_of(lower);
    let up = chars_of(upper);
    let n = t.len();
    let ghost rest = t@.skip(start as int);
    if n - start != low.len() {
        return false;
    }
    let mut k: usize = 0;
    while k < low.len()
        invariant
            k <= low@.len(),
            low@ == lower@,
            up@ == upper@,
            low@.len() == up@.len(),
            n == t@.len(),
            n - start == low@.len(),
            rest == t@.skip(start as int),
            forall|j: int| 0 <= j < k ==> #[trigger] rest[j] == low@[j] || rest[j] == up@[j],
        decreases low@.len() - k,
    {
        let c = t.at(start + k);
        assert(c == rest[k as int]);
        if c != low[k] && c != up[k] {
            return false;
        }
        k = k + 1;
    }
    true
}

/// Whether `t` spells a fraction.
fn fraction(t: &Text) -> (r: bool)
    ensures
        r == is_fraction(t@),
{
    proof {
        reveal_strlit("inf");
        reveal_strlit("INF");
        reveal_strlit("infinity");
        reveal_strlit("INFINITY");
        reveal_strlit("nan");
        reveal_strlit("NAN");
        assert("inf"@.len() == 3 && "INF"@.len() == 3);
        assert("infinity"@.len() == 8 && "INFINITY"@.len() == 8);
        assert("nan"@.len() == 3 && "NAN"@.len() == 3);
    }
    let n = t.len();
    let start: usize = if char_at(t, 0, '+') || char_at(t, 0, '-') {
        1
    } else {
        0
    };
    if word_at(t, start, "inf", "INF") || word_at(t, start, "infinity", "INFINITY") || word_at(
        t,
        start,
        "nan",
        "NAN",
    ) {
        return true;
    }
    let point = scan(t, start, CharClass::Digit);
    let pointed = char_at(t, point, '.');
    let end = if pointed {
        scan(t, point + 1, CharClass::Digit)
    } else {
        point
    };
    let digits = if pointed {
        (point - start) + (end - point - 1)
    } else {
        point - start
    };
    if digits == 0 {
        return false;
    }
    if end == n {
        return true;
    }
    if !(char_at(t, end, 'e') || char_at(t, end, 'E')) {
        return false;
    }
    let from = if char_at(t, end + 1, '+') || char_at(t, end + 1, '-') {
        end + 2
    } else {
        end + 1
    };
    from < n && scan(t, from, CharClass::Digit) == n
}

impl Value {
    /// The value that a text stands for where nothing says of what type it
    /// is, as an argument on the command line.
    pub fn from_string(s: &str) -> (v: Value)
        ensures
            v@ == value_of(s@),
    {
        if same_text(s, "true") {
            return Value::Bool(true);
        }
        if same_text(s, "false") {
            return Value::Bool(false);
        }
        let t = Text::new(s);
        match int_from(&t, 0) {
            Some((next, value)) => if next == t.len() {
                return value;
            },
            None => {},
        }
        if fraction(&t) {
            Value::Float(String::from_str(s))
        } else {
            Value::String(String::from_str(s))
        }
    }

    /// The type of the value.
    pub fn get_type(&self) -> (t: ValueType)
        ensures
            t == self@.value_type(),
    {
        match self {
            Value::String(_) => ValueType::String,
            Value::Int(_) => ValueType::Int,
            Value::Float(_) => ValueType::Float,
            Value::Bool(_) => ValueType::Bool,
        }
    }

    /// The text that displays the value.
    pub fn to_string(&self) -> (s: String)
        ensures
            s@ == self@.text(),
    {
        match self {
            Value::String(s) => s.clone(),
            Value::Int(i) => {
                let mut out = String::new();
                push_signed_decimal(&mut out, *i);
                assert(out@ =~= signed_decimal(*i as int));
                out
            },
            Value::Float(s) => s.clone(),
            Value::Bool(b) => if *b {
                String::from_str("true")
            } else {
                String::from_str("false")
            },
        }
    }

    /// A display-friendly form of the value: a string longer than `max_len`
    /// characters is cut there and marked with `...`.
    pub fn tag(&self, max_len: usize) -> (s: String)
        ensures
            s@ == self@.tag(max_len as int),
    {
        match self {
            Value::String(s) => {
                let t = Text::new(s.as_str());
                if t.len() > max_len {
                    let mut out = t.slice(0, max_len);
                    out.append("...");
                    assert(t@.subrange(0, max_len as int) =~= s@.take(max_len as int));
                    out
                } else {
                    s.clone()
                }
            },
            _ => self.to_string(),
        }
    }
}


/// A name together with the value it is bound to.
pub type Binding = (Seq<char>, ValueView);

/// Whether the names of `s` ascend strictly in dictionary order.
pub open spec fn ascending(s: Seq<Binding>) -> bool {
    forall|i: int, j: int| 0 <= i < j < s.len() ==> text_lt(#[trigger] s[i].0, #[trigger] s[j].0)
}

/// Whether some binding of `s` is for `name`.
pub open spec fn binds(s: Seq<Binding>, name: Seq<char>) -> bool {
    exists|i: int| 0 <= i < s.len() && #[trigger] s[i].0 == name
}

/// The position of a binding for `name` in `s`.
pub open spec fn position_of(s: Seq<Binding>, name: Seq<char>) -> int {
    choose|i: int| 0 <= i < s.len() && #[trigger] s[i].0 == name
}

/// The mapping from names to values that the bindings of `s` make up.
pub open spec fn bindings_map(s: Seq<Binding>) -> Map<Seq<char>, ValueView> {
    Map::new(|name: Seq<char>| binds(s, name), |name: Seq<char>| s[position_of(s, name)].1)
}

/// Among ascending bindings each name occurs once, so the binding at a
/// position is what the mapping holds for its name.
pub proof fn lemma_binding_at(s: Seq<Binding>, i: int)
    requires
        ascending(s),
        0 <= i < s.len(),
    ensures
        bindings_map(s).contains_key(s[i].0),
        bindings_map(s)[s[i].0] == s[i].1,
        position_of(s, s[i].0) == i,
{
    let name = s[i].0;
    assert(binds(s, name));
    let j = position_of(s, name);
    if j < i {
        assert(text_lt(s[j].0, s[i].0));
        lemma_lt_irreflexive(name);
    } else if i < j {
        assert(text_lt(s[i].0, s[j].0));
        lemma_lt_irreflexive(name);
    }
}

/// Ascending bindings that make up the same mapping are the same sequence:
/// what a value set holds fixes the order in which it lists it.
pub proof fn lemma_bindings_determined(s: Seq<Binding>, t: Seq<Binding>)
    requires
        ascending(s),
        ascending(t),
        bindings_map(s) == bindings_map(t),
    ensures
        s == t,
    decreases s.len(),
{
    if s.len() == 0 {
        if t.len() > 0 {
            lemma_binding_at(t, 0);
            assert(bindings_map(s).contains_key(t[0].0));
            assert(binds(s, t[0].0));
        }
        assert(s =~= t);
    } else if t.len() == 0 {
        lemma_binding_at(s, 0);
        assert(bindings_map(t).contains_key(s[0].0));
        assert(binds(t, s[0].0));
    } else {
        // The last bindings agree: each holds the greatest name of its sequence.
        let a = s.len() - 1;
        let b = t.len() - 1;
        lemma_binding_at(s, a);
        lemma_binding_at(t, b);
        assert(bindings_map(t).contains_key(s[a].0));
        assert(binds(t, s[a].0));
        let j = position_of(t, s[a].0);
        assert(bindings_map(s).contains_key(t[b].0));
        assert(binds(s, t[b].0));
        let i = position_of(s, t[b].0);
        if j < b {
            assert(text_lt(t[j].0, t[b].0));
            if i < a {
                assert(text_lt(s[i].0, s[a].0));
                lemma_lt_asymmetric(s[a].0, t[b].0);
            } else {
                lemma_lt_irreflexive(s[a].0);
            }
        }
        assert(j == b);
        lemma_binding_at(t, j);
        assert(s[a] == t[b]);
        let s0 = s.drop_last();
        let t0 = t.drop_last();
        assert(ascending(s0));
        assert(ascending(t0));
        assert forall|name: Seq<char>| binds(s0, name) == binds(t0, name) by {
            lemma_without_last(s, name);
            lemma_without_last(t, name);
            assert(bindings_map(s).dom().contains(name) == binds(s, name));
            assert(bindings_map(t).dom().contains(name) == binds(t, name));
        }
        assert forall|name: Seq<char>| binds(s0, name) implies s0[position_of(s0, name)].1
            == t0[position_of(t0, name)].1 by {
            let p = position_of(s0, name);
            let q = position_of(t0, name);
            lemma_binding_at(s, p);
            lemma_binding_at(t, q);
            assert(s[p].0 == name);
            assert(t[q].0 == name);
            assert(bindings_map(s)[name] == bindings_map(t)[name]);
        }
        assert(bindings_map(s0) =~= bindings_map(t0));
        lemma_bindings_determined(s0, t0);
        assert(s =~= s0.push(s[a]));
        assert(t =~= t0.push(t[b]));
    }
}

/// A name is bound in all but the last of ascending bindings exactly when it
/// is bound at all and is not the last name.
proof fn lemma_without_last(s: Seq<Binding>, name: Seq<char>)
    requires
        ascending(s),
        s.len() > 0,
    ensures
        binds(s.drop_last(), name) == (binds(s, name) && name != s.last().0),
{
    let s0 = s.drop_last();
    if binds(s0, name) {
        let i = position_of(s0, name);
        assert(s[i].0 == name);
        assert(text_lt(s[i].0, s[s.len() - 1].0));
        lemma_lt_irreflexive(name);
    }
    if binds(s, name) && name != s.last().0 {
        let i = position_of(s, name);
        assert(s0[i].0 == name);
    }
}

/// The bindings that a list of names and values holds.
pub open spec fn bindings_of(values: Seq<(String, Value)>) -> Seq<Binding> {
    Seq::new(values.len(), |i: int| (values[i].0@, values[i].1@))
}

/// The mapping that comes of binding the names of `pairs` in turn, a later
/// binding of a name in place of an earlier one.
pub open spec fn bound_by(pairs: Seq<Binding>) -> Map<Seq<char>, ValueView>
    decreases pairs.len(),
{
    if pairs.len() == 0 {
        Map::empty()
    } else {
        bound_by(pairs.drop_last()).insert(pairs.last().0, pairs.last().1)
    }
}

/// A value set is a collection of named values. It is used for the arguments
/// of units and for the values that they emit. It lists its bindings in the
/// dictionary order of their names, whatever the order in which they came.
#[derive(Debug)]
pub struct ValueSet {
    values: Vec<(String, Value)>,
}

impl View for ValueSet {
    type V = Map<Seq<char>, ValueView>;

    open spec fn view(&self) -> Map<Seq<char>, ValueView> {
        bindings_map(self.bindings())
    }
}

impl ValueSet {
    /// The bindings of the set, in the order in which it lists them.
    pub closed spec fn bindings(&self) -> Seq<Binding> {
        bindings_of(self.values@)
    }

    #[verifier::type_invariant]
    spec fn ordered(self) -> bool {
        ascending(self.bindings())
    }

    /// An empty set.
    pub fn new() -> (s: Self)
        ensures
            s@ == Map::<Seq<char>, ValueView>::empty(),
            s.bindings() == Seq::<Binding>::empty(),
    {
        let s = ValueSet { values: Vec::new() };
        assert(s.bindings() =~= Seq::<Binding>::empty());
        assert(s@ =~= Map::<Seq<char>, ValueView>::empty());
        s
    }

    /// The number of bindings. They are listed by ascending name.
    pub fn len(&self) -> (n: usize)
        ensures
            n == self.bindings().len(),
            n == self@.dom().len(),
            self@.dom().finite(),
            ascending(self.bindings()),
            self.bindings() == listing(self@),
    {
        proof {
            use_type_invariant(self);
            lemma_domain_size(self.bindings());
            lemma_listing(self.bindings());
        }
        self.values.len()
    }

    /// The name at position `i` of the listing.
    pub fn name_at(&self, i: usize) -> (name: &String)
        requires
            i < self.bindings().len(),
        ensures
            name@ == self.bindings()[i as int].0,
    {
        &self.values[i].0
    }

    /// The value at position `i` of the listing.
    pub fn value_at(&self, i: usize) -> (value: &Value)
        requires
            i < self.bindings().len(),
        ensures
            value@ == self.bindings()[i as int].1,
    {
        &self.values[i].1
    }

    /// The position of the first binding whose name does not come before `name`.
    fn locate(&self, name: &str) -> (p: usize)
        ensures
            p <= self.bindings().len(),
            forall|i: int| 0 <= i < p ==> text_lt(#[trigger] self.bindings()[i].0, name@),
            p < self.bindings().len() ==> !text_lt(self.bindings()[p as int].0, name@),
    {
        let mut p: usize = 0;
        while p < self.values.len()
            invariant
                p <= self.values@.len(),
                self.values@.len() == self.bindings().len(),
                forall|i: int| 0 <= i < p ==> text_lt(#[trigger] self.bindings()[i].0, name@),
            decreases self.values@.len() - p,
        {
            match compare_text(self.values[p].0.as_str(), name) {
                Rank::Before => {},
                _ => {
                    return p;
                },
            }
            p = p + 1;
        }
        p
    }

    /// The value bound to `name`, if there is one.
    pub fn get(&self, name: &str) -> (r: Option<&Value>)
        ensures
            match r {
                Some(v) => self@.contains_key(name@) && self@[name@] == v@,
                None => !self@.contains_key(name@),
            },
    {
        proof {
            use_type_invariant(self);
        }
        let p = self.locate(name);
        if p < self.values.len() && same_text(self.values[p].0.as_str(), name) {
            proof {
                lemma_binding_at(self.bindings(), p as int);
            }
            Some(&self.values[p].1)
        } else {
            proof {
                let s = self.bindings();
                if binds(s, name@) {
                    let i = position_of(s, name@);
                    if i < p {
                        lemma_lt_irreflexive(name@);
                    } else if i > p {
                        assert(text_lt(s[p as int].0, s[i].0));
                    }
                }
            }
            None
        }
    }

    /// Binds `name` to `value`, in place of what it was bound to before.
    pub fn add_value(&mut self, name: &str, value: Value)
        ensures
            final(self)@ == old(self)@.insert(name@, value@),
    {
        proof {
            use_type_invariant(&*self);
        }
        let p = self.locate(name);
        let ghost before = self.bindings();
        let mut values: Vec<(String, Value)> = Vec::new();
        std::mem::swap(&mut values, &mut self.values);
        assert(bindings_of(values@) == before);
        if p < values.len() && same_text(values[p].0.as_str(), name) {
            values.set(p, (name.to_owned(), value));
            proof {
                lemma_replaced(before, p as int, value@);
                assert(bindings_of(values@) =~= before.update(p as int, (name@, value@)));
            }
        } else {
            values.insert(p, (name.to_owned(), value));
            proof {
                if p < before.len() {
                    lemma_lt_total(before[p as int].0, name@);
                }
                lemma_inserted(before, p as int, (name@, value@));
                assert(bindings_of(values@) =~= before.insert(p as int, (name@, value@)));
            }
        }
        self.values = values;
    }
}

/// Putting a new value at a position of ascending bindings changes the mapping
/// at that name alone.
proof fn lemma_replaced(s: Seq<Binding>, p: int, value: ValueView)
    requires
        ascending(s),
        0 <= p < s.len(),
    ensures
        ascending(s.update(p, (s[p].0, value))),
        bindings_map(s.update(p, (s[p].0, value))) == bindings_map(s).insert(s[p].0, value),
{
    let t = s.update(p, (s[p].0, value));
    assert forall|i: int, j: int| 0 <= i < j < t.len() implies text_lt(
        #[trigger] t[i].0,
        #[trigger] t[j].0,
    ) by {
        assert(t[i].0 == s[i].0);
        assert(t[j].0 == s[j].0);
    }
    assert forall|name: Seq<char>| binds(t, name) == binds(s, name) by {
        if binds(t, name) {
            let i = position_of(t, name);
            assert(s[i].0 == name);
        }
        if binds(s, name) {
            let i = position_of(s, name);
            assert(t[i].0 == name);
        }
    }
    assert forall|name: Seq<char>| binds(t, name) implies #[trigger] bindings_map(t)[name]
        == bindings_map(s).insert(s[p].0, value)[name] by {
        let i = position_of(t, name);
        lemma_binding_at(t, i);
        assert(s[i].0 == name);
        lemma_binding_at(s, i);
        if i < p {
            assert(text_lt(s[i].0, s[p].0));
            lemma_lt_irreflexive(name);
        } else if p < i {
            assert(text_lt(s[p].0, s[i].0));
            lemma_lt_irreflexive(name);
        }
    }
    assert(bindings_map(t) =~= bindings_map(s).insert(s[p].0, value));
}

/// Putting a binding for a new name at its place among ascending bindings
/// keeps them ascending and adds the binding to the mapping.
proof fn lemma_inserted(s: Seq<Binding>, p: int, b: Binding)
    requires
        ascending(s),
        0 <= p <= s.len(),
        forall|i: int| 0 <= i < p ==> text_lt(#[trigger] s[i].0, b.0),
        p < s.len() ==> text_lt(b.0, s[p].0),
    ensures
        ascending(s.insert(p, b)),
        bindings_map(s.insert(p, b)) == bindings_map(s).insert(b.0, b.1),
{
    let t = s.insert(p, b);
    assert forall|i: int, j: int| 0 <= i < j < t.len() implies text_lt(
        #[trigger] t[i].0,
        #[trigger] t[j].0,
    ) by {
        if j < p {
            assert(t[i] == s[i] && t[j] == s[j]);
        } else if j == p {
            assert(t[i] == s[i]);
        } else if i < p {
            assert(t[i] == s[i] && t[j] == s[j - 1]);
            if j - 1 == p {
                lemma_lt_transitive(s[i].0, b.0, s[p].0);
            } else {
                assert(text_lt(s[i].0, s[j - 1].0));
            }
        } else if i == p {
            assert(t[j] == s[j - 1]);
            if j - 1 > p {
                assert(text_lt(s[p].0, s[j - 1].0));
                lemma_lt_transitive(b.0, s[p].0, s[j - 1].0);
            }
        } else {
            assert(t[i] == s[i - 1] && t[j] == s[j - 1]);
        }
    }
    assert forall|name: Seq<char>| binds(t, name) == (binds(s, name) || name == b.0) by {
        if binds(t, name) {
            let i = position_of(t, name);
            if i < p {
                assert(s[i].0 == name);
            } else if i > p {
                assert(s[i - 1].0 == name);
            }
        }
        if binds(s, name) {
            let i = position_of(s, name);
            if i < p {
                assert(t[i].0 == name);
            } else {
                assert(t[i + 1].0 == name);
            }
        }
        if name == b.0 {
            assert(t[p].0 == name);
        }
    }
    assert forall|name: Seq<char>| binds(t, name) implies #[trigger] bindings_map(t)[name]
        == bindings_map(s).insert(b.0, b.1)[name] by {
        let i = position_of(t, name);
        lemma_binding_at(t, i);
        if i < p {
            assert(s[i].0 == name);
            lemma_binding_at(s, i);
            assert(text_lt(s[i].0, b.0));
            lemma_lt_irreflexive(name);
        } else if i > p {
            assert(s[i - 1].0 == name);
            lemma_binding_at(s, i - 1);
            if i - 1 == p {
            } else {
                assert(text_lt(s[p].0, s[i - 1].0));
                lemma_lt_transitive(b.0, s[p].0, s[i - 1].0);
            }
            lemma_lt_irreflexive(name);
        }
    }
    assert(bindings_map(t) =~= bindings_map(s).insert(b.0, b.1));
}

/// Ascending bindings bind as many names as they are long.
pub proof fn lemma_domain_size(s: Seq<Binding>)
    requires
        ascending(s),
    ensures
        bindings_map(s).dom().finite(),
        bindings_map(s).dom().len() == s.len(),
    decreases s.len(),
{
    if s.len() == 0 {
        assert(bindings_map(s).dom() =~= Set::<Seq<char>>::empty());
    } else {
        let s0 = s.drop_last();
        let last = s.last();
        assert(ascending(s0));
        lemma_domain_size(s0);
        assert forall|i: int| 0 <= i < s0.len() implies text_lt(#[trigger] s0[i].0, last.0) by {
            assert(text_lt(s[i].0, s[s.len() - 1].0));
        }
        lemma_inserted(s0, s0.len() as int, last);
        assert(s0.insert(s0.len() as int, last) =~= s);
        assert(!binds(s0, last.0)) by {
            if binds(s0, last.0) {
                let i = position_of(s0, last.0);
                assert(text_lt(s0[i].0, last.0));
                lemma_lt_irreflexive(last.0);
            }
        }
        assert(bindings_map(s).dom() =~= bindings_map(s0).dom().insert(last.0));
    }
}


/// The text of a value set that its signature is the digest of: for each
/// binding in turn, the name, `=` and the value as displayed, with nothing
/// in between.
pub open spec fn signature_source(s: Seq<Binding>) -> Seq<char>
    decreases s.len(),
{
    if s.len() == 0 {
        Seq::<char>::empty()
    } else {
        signature_source(s.drop_last()) + s.last().0 + "="@ + s.last().1.text()
    }
}

/// The display tag of a list of bindings: like [`signature_source`], with
/// each value in its tag form of at most 10 characters.
pub open spec fn tag_text(s: Seq<Binding>) -> Seq<char>
    decreases s.len(),
{
    if s.len() == 0 {
        Seq::<char>::empty()
    } else {
        tag_text(s.drop_last()) + s.last().0 + "="@ + s.last().1.tag(10)
    }
}

/// The bindings of a mapping, listed by ascending name.
pub open spec fn listing(m: Map<Seq<char>, ValueView>) -> Seq<Binding> {
    choose|s: Seq<Binding>| ascending(s) && bindings_map(s) == m
}

/// The signature of a mapping from names to values: the digest of its
/// bindings listed by ascending name.
pub open spec fn signature(m: Map<Seq<char>, ValueView>) -> Seq<char> {
    sha1_hex(signature_source(listing(m)))
}

/// Ascending bindings are the listing of the mapping that they make up.
pub proof fn lemma_listing(s: Seq<Binding>)
    requires
        ascending(s),
    ensures
        listing(bindings_map(s)) == s,
{
    let m = bindings_map(s);
    let l = listing(m);
    assert(ascending(s) && bindings_map(s) == m);
    lemma_bindings_determined(l, s);
}

/// The SHA-1 digest of the UTF-8 encoding of `text`, written as lower-case
/// hexadecimal digits.
pub uninterp spec fn sha1_hex(text: Seq<char>) -> Seq<char>;

/// `Sha1::digest` of the `sha1` crate, on the bytes of `text`, formatted with
/// `{:x}`: a digest depends on the bytes alone, so the result is the one that
/// [`sha1_hex`] names.
#[verifier::external_body]
fn sha1_digest_hex(text: &str) -> (hex: String)
    ensures
        hex@ == sha1_hex(text@),
{
    format!("{:x}", Sha1::digest(text.as_bytes()))
}

impl Clone for ValueSet {
    fn clone(&self) -> (r: Self)
        ensures
            r.bindings() == self.bindings(),
            r@ == self@,
    {
        proof {
            use_type_invariant(self);
        }
        let mut values: Vec<(String, Value)> = Vec::new();
        let mut i: usize = 0;
        while i < self.values.len()
            invariant
                i <= self.values@.len(),
                values@.len() == i,
                bindings_of(values@) == bindings_of(self.values@).take(i as int),
            decreases self.values@.len() - i,
        {
            let ghost prev = values@;
            let name = self.values[i].0.clone();
            let value = self.values[i].1.clone();
            values.push((name, value));
            proof {
                let mine = bindings_of(self.values@);
                assert forall|j: int| 0 <= j < i + 1 implies bindings_of(values@)[j] == mine.take(
                    i + 1,
                )[j] by {
                    if j < i {
                        assert(bindings_of(prev)[j] == mine.take(i as int)[j]);
                    }
                }
                assert(bindings_of(values@) =~= mine.take(i + 1));
            }
            i = i + 1;
        }
        assert(bindings_of(values@) =~= bindings_of(self.values@));
        ValueSet { values }
    }
}

impl Default for ValueSet {
    fn default() -> (s: Self)
        ensures
            s@ == Map::<Seq<char>, ValueView>::empty(),
    {
        ValueSet::new()
    }
}

impl ValueSet {
    /// Whether the set has no bindings.
    pub fn is_empty(&self) -> (r: bool)
        ensures
            r == (self.bindings().len() == 0),
            r == (self@ == Map::<Seq<char>, ValueView>::empty()),
    {
        let n = self.len();
        proof {
            if n == 0 {
                assert(self@ =~= Map::<Seq<char>, ValueView>::empty());
            } else {
                assert(self@.dom().len() != 0);
            }
        }
        n == 0
    }

    /// Whether `name` is bound.
    pub fn contains_key(&self, name: &str) -> (r: bool)
        ensures
            r == self@.contains_key(name@),
    {
        self.get(name).is_some()
    }

    /// Adds the bindings of `other`; where both bind a name, that of `other`
    /// stays.
    pub fn merge(&mut self, other: &ValueSet)
        ensures
            final(self)@ == old(self)@.union_prefer_right(other@),
    {
        let n = other.len();
        let ghost theirs = other.bindings();
        let mut i: usize = 0;
        assert(self@ =~= old(self)@.union_prefer_right(bindings_map(theirs.take(0))));
        while i < n
            invariant
                i <= n,
                n == theirs.len(),
                theirs == other.bindings(),
                ascending(theirs),
                self@ == old(self)@.union_prefer_right(bindings_map(theirs.take(i as int))),
            decreases n - i,
        {
            let value = other.value_at(i).clone();
            self.add_value(other.name_at(i).as_str(), value);
            proof {
                let head = theirs.take(i as int);
                assert(ascending(head));
                assert forall|j: int| 0 <= j < i implies text_lt(
                    #[trigger] head[j].0,
                    theirs[i as int].0,
                ) by {
                    assert(text_lt(theirs[j].0, theirs[i as int].0));
                }
                lemma_inserted(head, i as int, theirs[i as int]);
                assert(head.insert(i as int, theirs[i as int]) =~= theirs.take(i + 1));
                assert(self@ =~= old(self)@.union_prefer_right(
                    bindings_map(theirs.take(i + 1)),
                ));
            }
            i = i + 1;
        }
        assert(theirs.take(n as int) =~= theirs);
    }

    /// The signature of the set: the SHA-1 digest, in hexadecimal, of its
    /// bindings listed by ascending name. It depends on nothing but what the
    /// set holds.
    pub fn get_sig(&self) -> (sig: String)
        ensures
            sig@ == signature(self@),
    {
        let n = self.len();
        let mut all = String::new();
        let mut i: usize = 0;
        assert(self.bindings().take(0) =~= Seq::<Binding>::empty());
        while i < n
            invariant
                i <= n,
                n == self.bindings().len(),
                all@ == signature_source(self.bindings().take(i as int)),
            decreases n - i,
        {
            let shown = self.value_at(i).to_string();
            all.append(self.name_at(i).as_str());
            all.append("=");
            all.append(shown.as_str());
            proof {
                let longer = self.bindings().take(i + 1);
                assert(longer.drop_last() =~= self.bindings().take(i as int));
                assert(longer.last() == self.bindings()[i as int]);
            }
            i = i + 1;
        }
        assert(self.bindings().take(n as int) =~= self.bindings());
        sha1_digest_hex(all.as_str())
    }

    /// A display-friendly listing of the set, with long strings cut short.
    pub fn tag(&self) -> (tag: String)
        ensures
            tag@ == tag_text(listing(self@)),
    {
        let n = self.len();
        let mut tag = String::new();
        let mut i: usize = 0;
        assert(self.bindings().take(0) =~= Seq::<Binding>::empty());
        while i < n
            invariant
                i <= n,
                n == self.bindings().len(),
                tag@ == tag_text(self.bindings().take(i as int)),
            decreases n - i,
        {
            let shown = self.value_at(i).tag(10);
            tag.append(self.name_at(i).as_str());
            tag.append("=");
            tag.append(shown.as_str());
            proof {
                let longer = self.bindings().take(i + 1);
                assert(longer.drop_last() =~= self.bindings().take(i as int));
                assert(longer.last() == self.bindings()[i as int]);
            }
            i = i + 1;
        }
        assert(self.bindings().take(n as int) =~= self.bindings());
        tag
    }
}

} // verus!
