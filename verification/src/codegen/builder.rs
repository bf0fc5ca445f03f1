//! The state of one run of the code generator: the lines emitted so far,
//! the chain of lexical scopes, the label counter and the table of interned
//! string literals.

use crate::text::{
    decimal, decimal_i32, decimal_string, join_lines, joined, lemma_decimal_round_trip, texts,
    trim_start, trimmed_start,
};
use vstd::prelude::*;

verus! {

/// A condition that ends code generation.
#[derive(Debug, PartialEq, Eq)]
pub enum CodegenError {
    /// An identifier that no enclosing scope declares.
    UndefinedVariable { name: String },
    /// A call with more than four arguments.
    TooManyArguments,
    /// A function definition with more than four parameters.
    TooManyParameters,
    /// A kind of node that has no lowering.
    Unimplemented,
    /// Leaving the outermost scope.
    OrphanedScope,
    /// The label counter or the table of interned strings is full.
    OutOfLabels,
    /// The next frame offset does not fit in 32 bits.
    FrameTooLarge,
}

/// The mathematical value of a [`CodegenError`].
pub enum Fault {
    UndefinedVariable { name: Seq<char> },
    TooManyArguments,
    TooManyParameters,
    Unimplemented,
    OrphanedScope,
    OutOfLabels,
    FrameTooLarge,
}

impl View for CodegenError {
    type V = Fault;

    open spec fn view(&self) -> Fault {
        match self {
            CodegenError::UndefinedVariable { name } => Fault::UndefinedVariable { name: name@ },
            CodegenError::TooManyArguments => Fault::TooManyArguments,
            CodegenError::TooManyParameters => Fault::TooManyParameters,
            CodegenError::Unimplemented => Fault::Unimplemented,
            CodegenError::OrphanedScope => Fault::OrphanedScope,
            CodegenError::OutOfLabels => Fault::OutOfLabels,
            CodegenError::FrameTooLarge => Fault::FrameTooLarge,
        }
    }
}

impl Fault {
    /// The diagnostic of a fault.
    pub open spec fn message(self) -> Seq<char> {
        match self {
            Fault::UndefinedVariable { name } => "undefined variable: `"@ + name + "` :("@,
            Fault::TooManyArguments => "More than 4 arguments is not supported :("@,
            Fault::TooManyParameters => "sac doesn't support more than 4 parameters :("@,
            Fault::Unimplemented => "unimplemented :("@,
            Fault::OrphanedScope => "cannot leave orphaned scope :("@,
            Fault::OutOfLabels => "too many labels :("@,
            Fault::FrameTooLarge => "too many local variables :("@,
        }
    }
}

impl CodegenError {
    /// The diagnostic that goes with this error.
    pub fn message(&self) -> (m: String)
        ensures
            m@ == self@.message(),
    {
        match self {
            CodegenError::UndefinedVariable { name } => {
                let mut m = String::from_str("undefined variable: `");
                m.append(name.as_str());
                m.append("` :(");
                m
            },
            CodegenError::TooManyArguments => String::from_str(
                "More than 4 arguments is not supported :(",
            ),
            CodegenError::TooManyParameters => String::from_str(
                "sac doesn't support more than 4 parameters :(",
            ),
            CodegenError::Unimplemented => String::from_str("unimplemented :("),
            CodegenError::OrphanedScope => String::from_str("cannot leave orphaned scope :("),
            CodegenError::OutOfLabels => String::from_str("too many labels :("),
            CodegenError::FrameTooLarge => String::from_str("too many local variables :("),
        }
    }
}

/// A label of the assembly text: a tag and a number.
#[derive(Debug, PartialEq, Eq)]
pub struct Label {
    pub tag: String,
    pub value: i32,
}

/// The mathematical value of a [`Label`].
pub struct LabelView {
    pub tag: Seq<char>,
    pub value: int,
}

impl View for Label {
    type V = LabelView;

    open spec fn view(&self) -> LabelView {
        LabelView { tag: self.tag@, value: self.value as int }
    }
}

impl LabelView {
    /// The label as it stands in the assembly text: `.SacLabel`, the tag,
    /// the number in decimal.
    pub open spec fn text(self) -> Seq<char> {
        ".SacLabel"@ + self.tag + decimal(self.value)
    }

    /// The label of the interned string with the given index.
    pub open spec fn interned(index: int) -> LabelView {
        LabelView { tag: "Interned"@, value: index }
    }

    /// The anonymous label with the given number.
    pub open spec fn anonymous(value: int) -> LabelView {
        LabelView { tag: Seq::empty(), value }
    }
}

impl Clone for Label {
    fn clone(&self) -> (r: Label)
        ensures
            r@ == self@,
    {
        Label { tag: self.tag.clone(), value: self.value }
    }
}

impl Label {
    /// The anonymous label with the number that `counter` holds; the
    /// counter then holds the next number.
    pub fn n(counter: &mut i32) -> (r: Label)
        requires
            *old(counter) < i32::MAX,
        ensures
            r@ == LabelView::anonymous(*old(counter) as int),
            *final(counter) == *old(counter) + 1,
    {
        let r = Label { value: *counter, tag: String::new() };
        *counter = *counter + 1;
        r
    }

    /// The label with the given number and tag.
    pub fn nn(value: i32, tag: String) -> (r: Label)
        ensures
            r@ == (LabelView { tag: tag@, value: value as int }),
    {
        Label { value, tag }
    }

    /// The text of the label.
    pub fn s(&self) -> (r: String)
        ensures
            r@ == self@.text(),
    {
        let mut r = String::from_str(".SacLabel");
        r.append(self.tag.as_str());
        let number = decimal_string(self.value as i64);
        r.append(number.as_str());
        r
    }
}

/// One lexical scope: the frame offset of each variable declared in it, and
/// the offset that the next declaration gets.
pub struct Scope {
    pub locals: Map<Seq<char>, int>,
    pub next_local_offset: int,
}

impl Scope {
    /// A scope without declarations.
    pub open spec fn fresh() -> Scope {
        Scope { locals: Map::empty(), next_local_offset: 0 }
    }

    /// The scope with `name` bound to `offset`, in place of what it was
    /// bound to before.
    pub open spec fn bind(self, name: Seq<char>, offset: int) -> Scope {
        Scope { locals: self.locals.insert(name, offset), ..self }
    }
}

/// The offset of `name` in the innermost scope that declares it; the scopes
/// come innermost first.
pub open spec fn resolve(scopes: Seq<Scope>, name: Seq<char>) -> Option<int>
    decreases scopes.len(),
{
    if scopes.len() == 0 {
        None
    } else if scopes[0].locals.contains_key(name) {
        Some(scopes[0].locals[name])
    } else {
        resolve(scopes.drop_first(), name)
    }
}

/// The map that a list of bindings stands for: of two bindings of one name
/// the later counts.
pub open spec fn bindings(entries: Seq<(String, i32)>) -> Map<Seq<char>, int>
    decreases entries.len(),
{
    if entries.len() == 0 {
        Map::empty()
    } else {
        bindings(entries.drop_last()).insert(entries.last().0@, entries.last().1 as int)
    }
}

/// A name that none of the bindings from `from` on has is bound as in the
/// bindings before `from`; a name that the binding at `from - 1` has is
/// bound to its offset then.
proof fn lemma_bindings_scan(entries: Seq<(String, i32)>, from: int, name: Seq<char>)
    requires
        0 <= from <= entries.len(),
        forall|j: int| from <= j < entries.len() ==> (#[trigger] entries[j]).0@ != name,
    ensures
        bindings(entries).contains_key(name) == bindings(entries.take(from)).contains_key(name),
        bindings(entries).contains_key(name) ==> bindings(entries)[name] == bindings(
            entries.take(from),
        )[name],
        from > 0 && entries[from - 1].0@ == name ==> bindings(entries).contains_key(name)
            && bindings(entries)[name] == entries[from - 1].1,
    decreases entries.len() - from,
{
    if from == entries.len() {
        assert(entries.take(from) =~= entries);
    } else {
        let shorter = entries.drop_last();
        assert(entries.last() == entries[entries.len() - 1]);
        lemma_bindings_scan(shorter, from, name);
        assert(shorter.take(from) =~= entries.take(from));
    }
    if from > 0 && entries[from - 1].0@ == name {
        let upto = entries.take(from);
        assert(upto.last() == entries[from - 1]);
    }
}

/// A chain of lexical scopes, innermost first. Looking a name up tries each
/// scope in turn.
#[derive(Debug)]
pub struct Context {
    locals: Vec<(String, i32)>,
    next_local_offset: i32,
    outer: Option<Box<Context>>,
}

impl Context {
    /// The scopes of the chain, innermost first.
    pub closed spec fn scopes(&self) -> Seq<Scope>
        decreases self,
    {
        let this = Scope {
            locals: bindings(self.locals@),
            next_local_offset: self.next_local_offset as int,
        };
        match self.outer {
            Some(outer) => seq![this] + outer.scopes(),
            None => seq![this],
        }
    }
}

impl View for Context {
    type V = Seq<Scope>;

    closed spec fn view(&self) -> Seq<Scope> {
        self.scopes()
    }
}

impl Context {
    /// A chain always has its own scope.
    pub proof fn lemma_nonempty(&self)
        ensures
            self@.len() >= 1,
    {
    }

    /// A chain of one empty scope.
    pub fn n() -> (r: Context)
        ensures
            r@ == seq![Scope::fresh()],
    {
        let r = Context { locals: Vec::new(), outer: None, next_local_offset: 0 };
        assert(r.scopes()[0].locals =~= Map::empty());
        assert(r.scopes() =~= seq![Scope::fresh()]);
        r
    }

    /// The chain with a new empty scope in front.
    pub fn enter(self) -> (r: Context)
        ensures
            r@ == seq![Scope::fresh()] + self@,
    {
        let r = Context { locals: Vec::new(), outer: Some(Box::new(self)), next_local_offset: 0 };
        assert(r.scopes()[0].locals =~= Map::empty());
        assert(r.scopes() =~= seq![Scope::fresh()] + self.scopes());
        r
    }

    /// The chain without its innermost scope, if it has another.
    pub fn exit(self) -> (r: Option<Box<Context>>)
        ensures
            self@.len() == 1 ==> r is None,
            self@.len() > 1 ==> r is Some && r->0@ == self@.drop_first(),
    {
        proof {
            if self.outer is Some {
                self.outer->0.lemma_nonempty();
                assert(self.scopes().drop_first() =~= self.outer->0.scopes());
            }
        }
        self.outer
    }

    /// Whether this is the only scope of the chain.
    pub fn is_outermost(&self) -> (r: bool)
        ensures
            r == (self@.len() == 1),
    {
        proof {
            if self.outer is Some {
                self.outer->0.lemma_nonempty();
            }
        }
        self.outer.is_none()
    }

    /// The offset that the next declaration in the innermost scope gets.
    pub fn next_offset(&self) -> (r: i32)
        ensures
            r == self@[0].next_local_offset,
    {
        self.next_local_offset
    }

    /// Sets the offset that the next declaration in the innermost scope
    /// gets.
    pub fn set_next_offset(&mut self, offset: i32)
        ensures
            final(self)@ == old(self)@.update(
                0,
                Scope { next_local_offset: offset as int, ..old(self)@[0] },
            ),
    {
        self.next_local_offset = offset;
        assert(self.scopes() =~= old(self).scopes().update(
            0,
            Scope { next_local_offset: offset as int, ..old(self).scopes()[0] },
        ));
    }

    /// Binds `local` to `offset` in the innermost scope.
    pub fn set(&mut self, local: String, offset: i32)
        ensures
            final(self)@ == old(self)@.update(0, old(self)@[0].bind(local@, offset as int)),
    {
        self.locals.push((local, offset));
        proof {
            assert(self.locals@.drop_last() =~= old(self).locals@);
            assert(self.scopes() =~= old(self).scopes().update(
                0,
                old(self).scopes()[0].bind(local@, offset as int),
            ));
        }
    }

    /// The offset of `local` in the innermost scope that declares it.
    pub fn get(&self, local: &String) -> (r: Option<&i32>)
        ensures
            match r {
                Some(offset) => resolve(self@, local@) == Some(*offset as int),
                None => resolve(self@, local@) is None,
            },
        decreases self,
    {
        let mut i: usize = self.locals.len();
        while i > 0
            invariant
                i <= self.locals.len(),
                forall|j: int| i <= j < self.locals.len() ==> (#[trigger] self.locals[j]).0@ != local@,
            decreases i,
        {
            if self.locals[i - 1].0 == *local {
                proof {
                    lemma_bindings_scan(self.locals@, i as int, local@);
                }
                return Some(&self.locals[i - 1].1);
            }
            i -= 1;
        }
        proof {
            lemma_bindings_scan(self.locals@, 0, local@);
            assert(self.locals@.take(0) =~= Seq::empty());
            assert(!bindings(self.locals@).contains_key(local@));
            assert(self.scopes()[0].locals == bindings(self.locals@));
            assert(resolve(self@, local@) == resolve(self@.drop_first(), local@));
        }
        match &self.outer {
            Some(outer) => {
                proof {
                    assert(self.scopes().drop_first() =~= outer.scopes());
                }
                outer.get(local)
            },
            None => {
                proof {
                    assert(self.scopes().drop_first() =~= Seq::empty());
                }
                None
            },
        }
    }
}

/// The table of interned string literals, in the order in which they were
/// first seen, each with its label.
pub type Interned = Seq<(Seq<char>, LabelView)>;

/// The label under which `text` is interned, if it is: that of the first
/// entry that holds exactly this text.
pub open spec fn interned_label(table: Interned, text: Seq<char>) -> Option<LabelView>
    decreases table.len(),
{
    if table.len() == 0 {
        None
    } else if table[0].0 == text {
        Some(table[0].1)
    } else {
        interned_label(table.drop_first(), text)
    }
}

/// No text is interned twice, and the entry at each index has the label of
/// that index.
pub open spec fn table_wf(table: Interned) -> bool {
    &&& forall|i: int, j: int|
        0 <= i < j < table.len() ==> (#[trigger] table[i]).0 != (#[trigger] table[j]).0
    &&& forall|i: int| 0 <= i < table.len() ==> (#[trigger] table[i]).1 == LabelView::interned(i)
}

/// The data directive of one interned string: its label, the text as a
/// string constant, and the padding to the alignment boundary.
pub open spec fn directive(entry: (Seq<char>, LabelView)) -> Seq<char> {
    "\n"@ + entry.1.text() + ":\n  .string \""@ + entry.0 + "\"\n  .balign 4"@
}

/// The data directives of a table of interned strings, in its order.
pub open spec fn directives(table: Interned) -> Seq<Seq<char>> {
    table.map_values(|e: (Seq<char>, LabelView)| directive(e))
}

/// What the first `count` parameters add to the bindings of a scope: the
/// parameter at index `i` of `n` gets the offset `4 * i - 4 * n`.
pub open spec fn param_bindings(
    base: Map<Seq<char>, int>,
    params: Seq<Seq<char>>,
    count: int,
) -> Map<Seq<char>, int>
    decreases count,
{
    if count <= 0 {
        base
    } else {
        param_bindings(base, params, count - 1).insert(
            params[count - 1],
            4 * (count - 1) - 4 * params.len(),
        )
    }
}

/// The mathematical value of a [`Builder`].
pub struct BuilderView {
    pub src: Seq<char>,
    pub lines: Seq<Seq<char>>,
    pub scopes: Seq<Scope>,
    pub interned: Interned,
    pub next_label: int,
}

impl BuilderView {
    /// The state before anything was emitted.
    pub open spec fn new(src: Seq<char>) -> BuilderView {
        BuilderView {
            src,
            lines: Seq::empty(),
            scopes: seq![Scope::fresh()],
            interned: Seq::empty(),
            next_label: 0,
        }
    }

    /// What every builder satisfies.
    pub open spec fn wf(self) -> bool {
        &&& self.scopes.len() >= 1
        &&& table_wf(self.interned)
        &&& 0 <= self.next_label
    }

    pub open spec fn add(self, line: Seq<char>) -> BuilderView {
        BuilderView { lines: self.lines.push(line), ..self }
    }

    pub open spec fn add_at(self, line: Seq<char>, loc: int) -> BuilderView {
        BuilderView { lines: self.lines.insert(loc, line), ..self }
    }

    pub open spec fn enter(self) -> BuilderView {
        BuilderView { scopes: seq![Scope::fresh()] + self.scopes, ..self }
    }

    pub open spec fn exit(self) -> BuilderView {
        BuilderView { scopes: self.scopes.drop_first(), ..self }
    }

    /// Declares `name` in the innermost scope at the next free offset, and
    /// moves that offset down by one word.
    pub open spec fn set(self, name: Seq<char>) -> BuilderView {
        let scope = self.scopes[0];
        BuilderView {
            scopes: self.scopes.update(
                0,
                Scope {
                    locals: scope.locals.insert(name, scope.next_local_offset),
                    next_local_offset: scope.next_local_offset - 4,
                },
            ),
            ..self
        }
    }

    /// Declares the parameters of a function in the innermost scope and
    /// puts the next free offset one word below them.
    pub open spec fn set_up_env(self, params: Seq<Seq<char>>) -> BuilderView {
        let scope = self.scopes[0];
        BuilderView {
            scopes: self.scopes.update(
                0,
                Scope {
                    locals: param_bindings(scope.locals, params, params.len() as int),
                    next_local_offset: -4 * params.len() - 4,
                },
            ),
            ..self
        }
    }

    pub open spec fn resolve(self, name: Seq<char>) -> Option<int> {
        resolve(self.scopes, name)
    }

    /// Interns `text`: a text seen before keeps its label and the table
    /// stays as it is; a new text is appended with the label of its index.
    pub open spec fn intern(self, text: Seq<char>) -> (BuilderView, LabelView) {
        match interned_label(self.interned, text) {
            Some(label) => (self, label),
            None => {
                let label = LabelView::interned(self.interned.len() as int);
                (BuilderView { interned: self.interned.push((text, label)), ..self }, label)
            },
        }
    }

    /// Takes the next anonymous label.
    pub open spec fn new_label(self) -> (BuilderView, LabelView) {
        (
            BuilderView { next_label: self.next_label + 1, ..self },
            LabelView::anonymous(self.next_label),
        )
    }

    /// The lines of the listing: the directive of each interned string and
    /// an empty line, where there is any, then the emitted lines.
    pub open spec fn all_lines(self) -> Seq<Seq<char>> {
        if self.interned.len() > 0 {
            directives(self.interned) + seq![Seq::empty()] + self.lines
        } else {
            self.lines
        }
    }

    /// The assembly listing: all lines joined, without leading whitespace,
    /// ended by a line feed.
    pub open spec fn assembly(self) -> Seq<char> {
        trimmed_start(joined(self.all_lines())) + "\n"@
    }
}

/// A text that the first `upto` entries do not hold is interned as in the
/// rest of the table.
proof fn lemma_interned_skip(table: Interned, text: Seq<char>, upto: int)
    requires
        0 <= upto <= table.len(),
        forall|j: int| 0 <= j < upto ==> (#[trigger] table[j]).0 != text,
    ensures
        interned_label(table, text) == interned_label(table.skip(upto), text),
    decreases upto,
{
    if upto == 0 {
        assert(table.skip(0) =~= table);
    } else {
        let rest = table.drop_first();
        assert(table[0].0 != text);
        assert forall|j: int| 0 <= j < upto - 1 implies (#[trigger] rest[j]).0 != text by {
            assert(rest[j] == table[j + 1]);
        }
        lemma_interned_skip(rest, text, upto - 1);
        assert(rest.skip(upto - 1) =~= table.skip(upto));
    }
}

/// A text is interned exactly when some entry holds it, and then under the
/// label of an entry that holds it.
pub proof fn lemma_interned_label(table: Interned, text: Seq<char>)
    ensures
        interned_label(table, text) is Some <==> exists|i: int|
            0 <= i < table.len() && (#[trigger] table[i]).0 == text,
        interned_label(table, text) is Some ==> exists|i: int|
            0 <= i < table.len() && (#[trigger] table[i]).0 == text && table[i].1
                == interned_label(table, text)->0,
    decreases table.len(),
{
    if table.len() > 0 {
        if table[0].0 != text {
            let rest = table.drop_first();
            lemma_interned_label(rest, text);
            if interned_label(rest, text) is Some {
                let i = choose|i: int|
                    0 <= i < rest.len() && (#[trigger] rest[i]).0 == text && rest[i].1
                        == interned_label(rest, text)->0;
                assert(table[i + 1] == rest[i]);
            }
            if exists|i: int| 0 <= i < table.len() && (#[trigger] table[i]).0 == text {
                let i = choose|i: int| 0 <= i < table.len() && (#[trigger] table[i]).0 == text;
                assert(rest[i - 1] == table[i]);
            }
        } else {
            assert(table[0].0 == text);
        }
    }
}

/// Interning keeps the table well formed.
pub proof fn lemma_intern_wf(b: BuilderView, text: Seq<char>)
    requires
        table_wf(b.interned),
    ensures
        table_wf(b.intern(text).0.interned),
{
    lemma_interned_label(b.interned, text);
}

/// The state that a builder starts in is well formed, and every operation
/// keeps it so.
pub proof fn lemma_wf_is_kept(
    b: BuilderView,
    text: Seq<char>,
    loc: int,
    params: Seq<Seq<char>>,
)
    requires
        b.wf(),
    ensures
        BuilderView::new(text).wf(),
        b.add(text).wf(),
        b.add_at(text, loc).wf(),
        b.enter().wf(),
        b.scopes.len() > 1 ==> b.exit().wf(),
        b.set(text).wf(),
        b.set_up_env(params).wf(),
        b.intern(text).0.wf(),
        b.new_label().0.wf(),
{
    lemma_intern_wf(b, text);
}

/// Interning the same text a second time gives the label of the first time
/// and adds nothing to the table, so that the listing holds one directive
/// for it.
pub proof fn lemma_intern_twice(b: BuilderView, text: Seq<char>)
    ensures
        b.intern(text).0.intern(text) == b.intern(text),
{
    let table = b.interned;
    if interned_label(table, text) is None {
        let label = LabelView::interned(table.len() as int);
        let longer = table.push((text, label));
        lemma_interned_label(table, text);
        assert forall|j: int| 0 <= j < table.len() implies (#[trigger] longer[j]).0 != text by {
            assert(longer[j] == table[j]);
        }
        lemma_interned_skip(longer, text, table.len() as int);
        assert(longer.skip(table.len() as int) =~= seq![(text, label)]);
        assert(seq![(text, label)].drop_first().len() == 0);
    }
}

/// Interning does not change what another text is interned as.
pub proof fn lemma_intern_keeps_others(b: BuilderView, text: Seq<char>, other: Seq<char>)
    requires
        other != text,
    ensures
        interned_label(b.intern(text).0.interned, other) == interned_label(b.interned, other),
{
    let table = b.interned;
    if interned_label(table, text) is None {
        let label = LabelView::interned(table.len() as int);
        lemma_interned_push(table, (text, label), other);
    }
}

/// An entry appended to the table does not change what a text that it does
/// not hold is interned as.
proof fn lemma_interned_push(table: Interned, entry: (Seq<char>, LabelView), other: Seq<char>)
    requires
        entry.0 != other,
    ensures
        interned_label(table.push(entry), other) == interned_label(table, other),
    decreases table.len(),
{
    let longer = table.push(entry);
    if table.len() == 0 {
        assert(longer.drop_first().len() == 0);
    } else {
        assert(longer[0] == table[0]);
        if table[0].0 != other {
            assert(longer.drop_first() =~= table.drop_first().push(entry));
            lemma_interned_push(table.drop_first(), entry, other);
        }
    }
}

/// Labels with one tag and different numbers have different texts.
pub proof fn lemma_label_texts_differ(a: LabelView, b: LabelView)
    requires
        a.tag == b.tag,
        i32::MIN <= a.value <= i32::MAX,
        i32::MIN <= b.value <= i32::MAX,
        a.value != b.value,
    ensures
        a.text() != b.text(),
{
    lemma_decimal_round_trip(a.value);
    lemma_decimal_round_trip(b.value);
    let head = ".SacLabel"@ + a.tag;
    if a.text() == b.text() {
        assert(a.text().skip(head.len() as int) =~= decimal(a.value));
        assert(b.text().skip(head.len() as int) =~= decimal(b.value));
        assert(decimal_i32(decimal(a.value)) == decimal_i32(decimal(b.value)));
    }
}

/// The label counter only counts up: two labels taken one after the other
/// have different numbers, the later the greater.
pub proof fn lemma_new_labels_increase(b: BuilderView)
    ensures
        b.new_label().0.next_label == b.next_label + 1,
        b.new_label().0.new_label().1.value > b.new_label().1.value,
        b.new_label().1 == LabelView::anonymous(b.next_label),
{
}

/// Declarations in one scope get frame offsets that go down by one word, so
/// that no two variables of a scope share a slot; the first declaration
/// after the parameters of a function lies one word below the lowest
/// parameter.
pub proof fn lemma_offsets_descend(
    b: BuilderView,
    first: Seq<char>,
    second: Seq<char>,
    params: Seq<Seq<char>>,
)
    requires
        b.scopes.len() >= 1,
        first != second,
    ensures
        b.set(first).resolve(first) == Some(b.scopes[0].next_local_offset),
        b.set(first).set(second).resolve(first) == Some(b.scopes[0].next_local_offset),
        b.set(first).set(second).resolve(second) == Some(b.scopes[0].next_local_offset - 4),
        b.set_up_env(params).set(first).resolve(first) == Some(-4 * params.len() - 4),
{
}

/// The parameter at index `i` of `n` parameters with different names has
/// the offset `4 * i - 4 * n`.
pub proof fn lemma_param_offsets(b: BuilderView, params: Seq<Seq<char>>, i: int)
    requires
        b.scopes.len() >= 1,
        0 <= i < params.len(),
        forall|j: int, k: int| 0 <= j < k < params.len() ==> params[j] != params[k],
    ensures
        b.set_up_env(params).resolve(params[i]) == Some(4 * i - 4 * params.len()),
{
    lemma_param_bindings(b.scopes[0].locals, params, params.len() as int, i);
}

/// Among the first `count` parameters, each with its own name, the one at
/// index `i` is bound to its offset.
proof fn lemma_param_bindings(
    base: Map<Seq<char>, int>,
    params: Seq<Seq<char>>,
    count: int,
    i: int,
)
    requires
        0 <= i < count <= params.len(),
        forall|j: int, k: int| 0 <= j < k < params.len() ==> params[j] != params[k],
    ensures
        param_bindings(base, params, count).contains_key(params[i]),
        param_bindings(base, params, count)[params[i]] == 4 * i - 4 * params.len(),
    decreases count,
{
    if i < count - 1 {
        lemma_param_bindings(base, params, count - 1, i);
    }
}

/// The scope in which a name is declared wins over the scopes around it:
/// in a scope entered and left again nothing of the outer scopes changes,
/// and a name declared inside resolves to the inner offset while inside.
pub proof fn lemma_scope_shadowing(b: BuilderView, name: Seq<char>)
    requires
        b.wf(),
    ensures
        b.enter().set(name).resolve(name) == Some(0int),
        b.enter().set(name).exit().scopes == b.scopes,
        b.enter().set(name).exit().resolve(name) == b.resolve(name),
        forall|other: Seq<char>| other != name ==> b.enter().set(name).resolve(other) == b.resolve(other),
{
    let inner = b.enter().set(name);
    assert(inner.scopes.drop_first() =~= b.scopes);
    assert(inner.exit().scopes =~= b.scopes);
    assert forall|other: Seq<char>| other != name implies inner.resolve(other) == b.resolve(
        other,
    ) by {
        assert(!inner.scopes[0].locals.contains_key(other));
    }
}

/// The values of the entries of the table of interned strings.
pub open spec fn interned_values(table: Seq<(String, Label)>) -> Interned {
    table.map_values(|e: (String, Label)| (e.0@, e.1@))
}

/// The largest number of parameters that [`Builder::set_up_env`] takes: with
/// more, a frame offset would not fit in 32 bits.
pub const MAX_PARAMS: usize = 0x1fff_fffe;

/// The state of one run of the code generator.
pub struct Builder {
    src: String,
    lines: Vec<String>,
    context: Context,
    interned_strings: Vec<(String, Label)>,
    next_label: i32,
}

impl View for Builder {
    type V = BuilderView;

    closed spec fn view(&self) -> BuilderView {
        BuilderView {
            src: self.src@,
            lines: texts(self.lines@),
            scopes: self.context@,
            interned: interned_values(self.interned_strings@),
            next_label: self.next_label as int,
        }
    }
}

impl Builder {
    /// A builder for the source file `src`, with nothing emitted yet.
    pub fn n(src: String) -> (b: Builder)
        ensures
            b@ == BuilderView::new(src@),
            b@.wf(),
    {
        let b = Builder {
            src,
            lines: Vec::new(),
            context: Context::n(),
            interned_strings: Vec::new(),
            next_label: 0,
        };
        assert(b@.lines =~= Seq::empty());
        assert(b@.interned =~= Seq::empty());
        b
    }

    /// The path of the source file.
    pub fn src(&self) -> (r: &str)
        ensures
            r@ == self@.src,
    {
        self.src.as_str()
    }

    /// The lines emitted so far.
    pub fn lines(&self) -> (r: &Vec<String>)
        ensures
            texts(r@) == self@.lines,
    {
        &self.lines
    }

    /// Appends a line.
    pub fn add(&mut self, line: &str)
        ensures
            final(self)@ == old(self)@.add(line@),
    {
        self.lines.push(String::from_str(line));
        assert(self@.lines =~= old(self)@.lines.push(line@));
    }

    /// Inserts a line before the line at index `loc`.
    pub fn add_at(&mut self, line: &str, loc: usize)
        requires
            loc <= old(self)@.lines.len(),
        ensures
            final(self)@ == old(self)@.add_at(line@, loc as int),
    {
        self.lines.insert(loc, String::from_str(line));
        assert(self@.lines =~= old(self)@.lines.insert(loc as int, line@));
    }

    /// Enters a new innermost scope.
    pub fn enter_ctx(&mut self)
        ensures
            final(self)@ == old(self)@.enter(),
    {
        let mut current = Context::n();
        core::mem::swap(&mut self.context, &mut current);
        self.context = current.enter();
    }

    /// Leaves the innermost scope. The outermost scope cannot be left: the
    /// builder then stays as it is.
    pub fn exit_ctx(&mut self) -> (r: Result<(), CodegenError>)
        ensures
            old(self)@.scopes.len() > 1 ==> r is Ok && final(self)@ == old(self)@.exit(),
            old(self)@.scopes.len() <= 1 ==> r == Err::<(), CodegenError>(
                CodegenError::OrphanedScope,
            ) && final(self)@ == old(self)@,
    {
        if self.context.is_outermost() {
            return Err(CodegenError::OrphanedScope);
        }
        let mut current = Context::n();
        core::mem::swap(&mut self.context, &mut current);
        match current.exit() {
            Some(outer) => {
                self.context = *outer;
                Ok(())
            },
            None => Ok(()),
        }
    }

    /// Whether the innermost scope can take one more declaration.
    pub fn has_frame_room(&self) -> (r: bool)
        ensures
            r == (self@.scopes[0].next_local_offset - 4 >= i32::MIN),
    {
        self.context.next_offset() >= i32::MIN + 4
    }

    /// Declares `local` in the innermost scope at the next free frame
    /// offset.
    pub fn set(&mut self, local: String)
        requires
            old(self)@.scopes[0].next_local_offset - 4 >= i32::MIN,
        ensures
            final(self)@ == old(self)@.set(local@),
    {
        let offset: i32 = self.context.next_offset();
        self.context.set(local, offset);
        self.context.set_next_offset(offset - 4);
        assert(self@.scopes =~= old(self)@.set(local@).scopes);
    }

    /// Declares the parameters of a function in the innermost scope.
    pub fn set_up_env(&mut self, locals: &[String])
        requires
            locals@.len() <= MAX_PARAMS,
        ensures
            final(self)@ == old(self)@.set_up_env(texts(locals@)),
    {
        let count: usize = locals.len();
        let ghost params = texts(locals@);
        let mut i: usize = 0;
        while i < count
            invariant
                i <= count,
                count == locals@.len(),
                count <= MAX_PARAMS,
                params == texts(locals@),
                self@.scopes.len() == old(self)@.scopes.len(),
                self@.scopes.len() >= 1,
                self@.scopes == old(self)@.scopes.update(
                    0,
                    Scope {
                        locals: param_bindings(old(self)@.scopes[0].locals, params, i as int),
                        next_local_offset: old(self)@.scopes[0].next_local_offset,
                    },
                ),
                self.src == old(self).src,
                self.lines == old(self).lines,
                self.interned_strings == old(self).interned_strings,
                self.next_label == old(self).next_label,
            decreases count - i,
        {
            let offset: i32 = (4 * (i as i64) - 4 * (count as i64)) as i32;
            self.context.set(locals[i].clone(), offset);
            i += 1;
        }
        self.context.set_next_offset((-4 * (count as i64) - 4) as i32);
        assert(self@.scopes =~= old(self)@.set_up_env(params).scopes);
    }

    /// The frame offset of `local` in the innermost scope that declares it.
    pub fn try_get(&self, local: &String) -> (r: Option<&i32>)
        ensures
            match r {
                Some(offset) => self@.resolve(local@) == Some(*offset as int),
                None => self@.resolve(local@) is None,
            },
    {
        self.context.get(local)
    }

    /// Whether [`Builder::add_interned_str`] can take one more string.
    pub fn has_interned_room(&self) -> (r: bool)
        ensures
            r == (self@.interned.len() < i32::MAX),
    {
        self.interned_strings.len() < 0x7fff_ffff
    }

    /// The label under which the string literal `istr` is interned, if it
    /// is.
    pub fn interned(&self, istr: &String) -> (r: Option<Label>)
        ensures
            match r {
                Some(label) => interned_label(self@.interned, istr@) == Some(label@),
                None => interned_label(self@.interned, istr@) is None,
            },
    {
        let ghost table = interned_values(self.interned_strings@);
        let mut i: usize = 0;
        while i < self.interned_strings.len()
            invariant
                i <= self.interned_strings.len(),
                table == interned_values(self.interned_strings@),
                forall|j: int| 0 <= j < i ==> (#[trigger] table[j]).0 != istr@,
            decreases self.interned_strings.len() - i,
        {
            if self.interned_strings[i].0 == *istr {
                proof {
                    lemma_interned_skip(table, istr@, i as int);
                    assert(table.skip(i as int)[0] == table[i as int]);
                }
                return Some(self.interned_strings[i].1.clone());
            }
            i += 1;
        }
        proof {
            lemma_interned_skip(table, istr@, i as int);
            assert(table.skip(i as int).len() == 0);
        }
        None
    }

    /// The label of the string literal `istr`: that of its first occurrence
    /// if it was seen before, else a new one.
    pub fn add_interned_str(&mut self, istr: String) -> (label: Label)
        requires
            interned_label(old(self)@.interned, istr@) is None ==> old(self)@.interned.len()
                < i32::MAX,
        ensures
            (final(self)@, label@) == old(self)@.intern(istr@),
    {
        if let Some(label) = self.interned(&istr) {
            return label;
        }
        let ghost table = interned_values(self.interned_strings@);
        let index: i32 = self.interned_strings.len() as i32;
        let label = Label::nn(index, String::from_str("Interned"));
        self.interned_strings.push((istr, label.clone()));
        assert(interned_values(self.interned_strings@) =~= table.push((istr@, label@)));
        label
    }

    /// Whether the label counter can give `count` more labels.
    pub fn has_labels(&self, count: i32) -> (r: bool)
        ensures
            r == (self@.next_label + count <= i32::MAX),
    {
        count <= 0 || self.next_label <= i32::MAX - count
    }

    /// The next anonymous label. Each call gives a greater number than the
    /// one before.
    pub fn new_label(&mut self) -> (label: Label)
        requires
            old(self)@.next_label < i32::MAX,
        ensures
            (final(self)@, label@) == old(self)@.new_label(),
    {
        Label::n(&mut self.next_label)
    }

    /// The assembly listing of what was emitted: the data directive of each
    /// interned string, then the instructions.
    pub fn assembly(&self) -> (text: String)
        ensures
            text@ == self@.assembly(),
    {
        let mut all: Vec<String> = Vec::new();
        let ghost table = interned_values(self.interned_strings@);
        if self.interned_strings.len() > 0 {
            let mut i: usize = 0;
            while i < self.interned_strings.len()
                invariant
                    i <= self.interned_strings.len(),
                    table == interned_values(self.interned_strings@),
                    texts(all@) == directives(table.take(i as int)),
                decreases self.interned_strings.len() - i,
            {
                let mut line = String::from_str("\n");
                let label = self.interned_strings[i].1.s();
                line.append(label.as_str());
                line.append(":\n  .string \"");
                line.append(self.interned_strings[i].0.as_str());
                line.append("\"\n  .balign 4");
                let ghost before = all@;
                all.push(line);
                proof {
                    assert(line@ =~= directive(table[i as int]));
                    assert(texts(all@) =~= texts(before).push(line@));
                    assert(table.take(i + 1) =~= table.take(i as int).push(table[i as int]));
                    assert(directives(table.take(i + 1)) =~= directives(
                        table.take(i as int),
                    ).push(directive(table[i as int])));
                }
                i += 1;
            }
            assert(table.take(self.interned_strings.len() as int) =~= table);
            let ghost before = all@;
            all.push(String::new());
            assert(texts(all@) =~= directives(table) + seq![Seq::empty()]);
        }
        let ghost head = texts(all@);
        let mut k: usize = 0;
        while k < self.lines.len()
            invariant
                k <= self.lines.len(),
                texts(all@) == head + self@.lines.take(k as int),
            decreases self.lines.len() - k,
        {
            let ghost before = all@;
            all.push(self.lines[k].clone());
            proof {
                assert(texts(all@) =~= texts(before).push(self.lines[k as int]@));
                assert(self@.lines.take(k + 1) =~= self@.lines.take(k as int).push(
                    self.lines[k as int]@,
                ));
                assert(texts(all@) =~= head + self@.lines.take(k + 1));
            }
            k += 1;
        }
        proof {
            assert(self@.lines.take(self.lines.len() as int) =~= self@.lines);
            assert(texts(all@) =~= self@.all_lines());
        }
        let text = join_lines(&all);
        let mut listing = String::from_str(trim_start(text.as_str()));
        listing.append("\n");
        listing
    }
}

} // verus!
