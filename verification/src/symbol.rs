use vstd::prelude::*;
use crate::seqs::{first_index, lemma_first_index};
use crate::text::str_eq;

verus! {

/// A type tag, identified by its name.
#[derive(Debug, Clone)]
pub struct Type {
    name: String,
}

impl View for Type {
    type V = Seq<char>;

    closed spec fn view(&self) -> Seq<char> {
        self.name@
    }
}

impl DeepView for Type {
    type V = Seq<char>;

    open spec fn deep_view(&self) -> Seq<char> {
        self@
    }
}

impl From<String> for Type {
    fn from(name: String) -> (t: Type)
        ensures
            t@ == name@,
    {
        Type { name }
    }
}

impl vstd::std_specs::convert::FromSpecImpl<String> for Type {
    open spec fn obeys_from_spec() -> bool {
        false
    }

    open spec fn from_spec(name: String) -> Type {
        arbitrary()
    }
}

impl<'a> vstd::std_specs::convert::FromSpecImpl<&'a str> for Type {
    open spec fn obeys_from_spec() -> bool {
        false
    }

    open spec fn from_spec(name: &'a str) -> Type {
        arbitrary()
    }
}

impl<'a> From<&'a str> for Type {
    fn from(name: &str) -> (t: Type)
        ensures
            t@ == name@,
    {
        Type { name: String::from_str(name) }
    }
}

impl Type {
    /// The type `int`.
    pub fn new_int() -> (t: Type)
        ensures
            t@ == "int"@,
    {
        Type { name: String::from_str("int") }
    }

    /// The type `bool`.
    pub fn new_bool() -> (t: Type)
        ensures
            t@ == "bool"@,
    {
        Type { name: String::from_str("bool") }
    }

    /// The type `str`.
    pub fn new_str() -> (t: Type)
        ensures
            t@ == "str"@,
    {
        Type { name: String::from_str("str") }
    }

    /// The type `list`.
    pub fn new_list() -> (t: Type)
        ensures
            t@ == "list"@,
    {
        Type { name: String::from_str("list") }
    }

    /// The type `none`.
    pub fn new_none() -> (t: Type)
        ensures
            t@ == "none"@,
    {
        Type { name: String::from_str("none") }
    }

    /// The tag's name.
    pub fn name(&self) -> (n: &str)
        ensures
            n@ == self@,
    {
        self.name.as_str()
    }

    /// Whether the two tags have the same name.
    pub fn same(&self, other: &Type) -> (r: bool)
        ensures
            r == (self@ == other@),
    {
        str_eq(self.name.as_str(), other.name.as_str())
    }

    /// A copy of the tag.
    pub fn duplicate(&self) -> (t: Type)
        ensures
            t@ == self@,
    {
        Type { name: self.name.clone() }
    }
}

/// A type set: the tags of the types that a value may have.
pub type Types = Vec<Type>;

/// A copy of a type set, tag by tag.
pub fn clone_types(types: &Types) -> (r: Types)
    ensures
        r.deep_view() == types.deep_view(),
{
    let mut r: Types = Vec::new();
    let mut i: usize = 0;
    while i < types.len()
        invariant
            i <= types.len(),
            r.len() == i,
            forall|j: int| 0 <= j < i ==> r@[j]@ == types@[j]@,
        decreases types.len() - i,
    {
        r.push(types[i].duplicate());
        i += 1;
    }
    assert(r.deep_view() =~= types.deep_view());
    r
}

/// Whether `types` holds the tag `t`.
pub fn types_contain(types: &Types, t: &Type) -> (r: bool)
    ensures
        r == types.deep_view().contains(t@),
{
    let mut i: usize = 0;
    while i < types.len()
        invariant
            i <= types.len(),
            forall|j: int| 0 <= j < i ==> types@[j]@ != t@,
        decreases types.len() - i,
    {
        if types[i].same(t) {
            assert(types.deep_view()[i as int] == t@);
            return true;
        }
        i += 1;
    }
    false
}

/// Every tag of `inner` is a tag of `outer`.
pub open spec fn subset_of(inner: Seq<Seq<char>>, outer: Seq<Seq<char>>) -> bool {
    forall|i: int| 0 <= i < inner.len() ==> outer.contains(#[trigger] inner[i])
}

/// Whether every tag of `inner` is a tag of `outer`.
pub fn types_subset(inner: &Types, outer: &Types) -> (r: bool)
    ensures
        r == subset_of(inner.deep_view(), outer.deep_view()),
{
    let mut i: usize = 0;
    while i < inner.len()
        invariant
            i <= inner.len(),
            forall|j: int| 0 <= j < i ==> outer.deep_view().contains(
                #[trigger] inner.deep_view()[j],
            ),
        decreases inner.len() - i,
    {
        if !types_contain(outer, &inner[i]) {
            assert(inner.deep_view()[i as int] == inner@[i as int]@);
            return false;
        }
        assert(inner.deep_view()[i as int] == inner@[i as int]@);
        i += 1;
    }
    true
}

/// What a name stands for.
#[derive(Debug, Clone)]
pub enum SymbolType {
    /// A top-level function: the name and type set of each declared argument,
    /// in order, and the declared return type set.
    Function { arg_types: Vec<(String, Types)>, return_types: Types },
    /// A local variable and the type set it was declared with.
    Variable { types: Types },
}

/// What a name stands for, as contracts see it.
pub enum SymbolTypeView {
    Function { arg_types: Seq<(Seq<char>, Seq<Seq<char>>)>, return_types: Seq<Seq<char>> },
    Variable { types: Seq<Seq<char>> },
}

impl View for SymbolType {
    type V = SymbolTypeView;

    open spec fn view(&self) -> SymbolTypeView {
        match self {
            SymbolType::Function { arg_types, return_types } => SymbolTypeView::Function {
                arg_types: arg_types.deep_view(),
                return_types: return_types.deep_view(),
            },
            SymbolType::Variable { types } => SymbolTypeView::Variable { types: types.deep_view() },
        }
    }
}

/// A symbol: what the name stands for, and its index. For a variable the
/// index is its slot; for a function, its place in the module's table.
#[derive(Debug, Clone)]
pub struct Symbol {
    sym_type: SymbolType,
    index: u8,
}

/// A symbol as contracts see it.
pub struct SymbolView {
    pub sym_type: SymbolTypeView,
    pub index: u8,
}

impl View for Symbol {
    type V = SymbolView;

    closed spec fn view(&self) -> SymbolView {
        SymbolView { sym_type: self.sym_type@, index: self.index }
    }
}

impl Symbol {
    fn new_fn(index: u8, arg_types: Vec<(String, Types)>, return_types: Types) -> (s: Symbol)
        ensures
            s@ == (SymbolView {
                sym_type: SymbolTypeView::Function {
                    arg_types: arg_types.deep_view(),
                    return_types: return_types.deep_view(),
                },
                index: index,
            }),
    {
        Symbol { sym_type: SymbolType::Function { arg_types, return_types }, index: index }
    }

    fn new_var(index: u8, types: Types) -> (s: Symbol)
        ensures
            s@ == (SymbolView {
                sym_type: SymbolTypeView::Variable { types: types.deep_view() },
                index: index,
            }),
    {
        Symbol { sym_type: SymbolType::Variable { types }, index: index }
    }

    /// What the symbol stands for: a variable or a function, with its types.
    pub fn get_type(&self) -> (t: &SymbolType)
        ensures
            t@ == self@.sym_type,
    {
        &self.sym_type
    }

    /// The variable's slot, or the function's index in its module.
    pub fn get_index(&self) -> (i: &u8)
        ensures
            *i == self@.index,
    {
        &self.index
    }
}

/// One name of a frame and the symbol bound to it.
pub struct Entry {
    name: String,
    symbol: Symbol,
}

/// An entry as contracts see it.
pub struct EntryView {
    pub name: Seq<char>,
    pub symbol: SymbolView,
}

impl View for Entry {
    type V = EntryView;

    closed spec fn view(&self) -> EntryView {
        EntryView { name: self.name@, symbol: self.symbol@ }
    }
}

/// The names bound in a frame, in the order of their first definition.
pub open spec fn frame_names(frame: Seq<EntryView>) -> Seq<Seq<char>> {
    Seq::new(frame.len(), |i: int| frame[i].name)
}

/// The frame after `name` was bound to `symbol`: an earlier binding of the
/// name is replaced where it stands, a new name joins at the end.
pub open spec fn frame_define(frame: Seq<EntryView>, name: Seq<char>, symbol: SymbolView) -> Seq<
    EntryView,
> {
    let i = first_index(frame_names(frame), name);
    let entry = EntryView { name: name, symbol: symbol };
    if i < frame.len() {
        frame.update(i, entry)
    } else {
        frame.push(entry)
    }
}

/// The symbol that `name` is bound to in `frame`, if any.
pub open spec fn frame_lookup(frame: Seq<EntryView>, name: Seq<char>) -> Option<SymbolView> {
    let i = first_index(frame_names(frame), name);
    if i < frame.len() {
        Some(frame[i].symbol)
    } else {
        None
    }
}

/// The index that the next definition gets. `frames` runs from the global
/// frame to the innermost. In the global frame it is the number of names
/// there; elsewhere it is the number of names in all frames but the global.
pub open spec fn next_index(frames: Seq<Seq<EntryView>>) -> nat
    decreases frames.len(),
{
    if frames.len() == 0 {
        0
    } else if frames.len() <= 2 {
        frames.last().len()
    } else {
        next_index(frames.drop_last()) + frames.last().len()
    }
}

/// The frames after `name` was bound to `symbol` in the innermost one.
pub open spec fn define(frames: Seq<Seq<EntryView>>, name: Seq<char>, symbol: SymbolView) -> Seq<
    Seq<EntryView>,
> {
    frames.update(frames.len() - 1, frame_define(frames.last(), name, symbol))
}

/// What `name` resolves to: the binding of the innermost frame that has one,
/// and whether that frame is the global one. A name bound nowhere gives no
/// symbol, and `true`.
pub open spec fn resolve(frames: Seq<Seq<EntryView>>, name: Seq<char>) -> (Option<SymbolView>, bool)
    decreases frames.len(),
{
    if frames.len() == 0 {
        (None, true)
    } else {
        match frame_lookup(frames.last(), name) {
            Some(s) => (Some(s), frames.len() == 1),
            None => if frames.len() == 1 {
                (None, true)
            } else {
                resolve(frames.drop_last(), name)
            },
        }
    }
}

/// A scope: the names bound in it, and the scope around it. The scope without
/// one around it is the global scope.
pub struct SymbolTable<'a> {
    parent: Option<&'a SymbolTable<'a>>,
    symbols: Vec<Entry>,
}

impl<'a> View for SymbolTable<'a> {
    type V = Seq<Seq<EntryView>>;

    closed spec fn view(&self) -> Seq<Seq<EntryView>> {
        self.model()
    }
}

impl<'a> SymbolTable<'a> {
    /// The names bound in this scope.
    pub closed spec fn frame(&self) -> Seq<EntryView> {
        Seq::new(self.symbols@.len(), |i: int| self.symbols@[i]@)
    }

    /// The frames from the global scope to this one.
    pub closed spec fn model(&self) -> Seq<Seq<EntryView>>
        decreases self,
    {
        match self.parent {
            None => seq![self.frame()],
            Some(p) => p.model().push(self.frame()),
        }
    }

    /// The outermost scope, without a symbol.
    pub fn new_global() -> (t: SymbolTable<'a>)
        ensures
            t@ == seq![Seq::<EntryView>::empty()],
    {
        let t = SymbolTable { parent: None, symbols: Vec::new() };
        assert(t.frame() =~= Seq::<EntryView>::empty());
        t
    }

    /// A fresh scope inside this one.
    pub fn push(&'a self) -> (t: SymbolTable<'a>)
        ensures
            t@ == self@.push(Seq::<EntryView>::empty()),
    {
        let t = SymbolTable { symbols: Vec::new(), parent: Some(&self) };
        assert(t.frame() =~= Seq::<EntryView>::empty());
        t
    }

    /// Whether this is the outermost scope.
    pub fn is_global(&self) -> (g: bool)
        ensures
            g == (self@.len() == 1),
    {
        proof {
            self.lemma_model_len();
        }
        self.parent.is_none()
    }

    /// A table has at least its own scope.
    pub proof fn lemma_model_len(&self)
        ensures
            self@.len() >= 1,
            self.parent_is_some() ==> self@.len() >= 2,
        decreases self,
    {
        match self.parent {
            None => {},
            Some(p) => {
                p.lemma_model_len();
            },
        }
    }

    /// Whether the scope lies inside another.
    pub closed spec fn parent_is_some(&self) -> bool {
        self.parent is Some
    }

    /// The index that the next definition gets, where it fits in a byte.
    pub fn get_next_index(&self) -> (index: Option<u8>)
        ensures
            index == (if next_index(self@) <= 255 {
                Some(next_index(self@) as u8)
            } else {
                None
            }),
        decreases self,
    {
        let own = self.symbols.len();
        match self.parent {
            None => {
                if own <= 255 {
                    Some(own as u8)
                } else {
                    None
                }
            },
            Some(p) => {
                proof {
                    p.lemma_model_len();
                    assert(self@.drop_last() =~= p@);
                }
                if p.is_global() {
                    if own <= 255 {
                        Some(own as u8)
                    } else {
                        None
                    }
                } else {
                    match p.get_next_index() {
                        Some(below) => {
                            if own <= 255 - (below as usize) {
                                Some((below as usize + own) as u8)
                            } else {
                                None
                            }
                        },
                        None => None,
                    }
                }
            },
        }
    }

    fn find(&self, name: &str) -> (r: Option<usize>)
        ensures
            match r {
                Some(i) => i < self.frame().len() && i == first_index(
                    frame_names(self.frame()),
                    name@,
                ),
                None => first_index(frame_names(self.frame()), name@) == self.frame().len(),
            },
    {
        let mut i: usize = 0;
        while i < self.symbols.len()
            invariant
                i <= self.symbols.len(),
                forall|j: int| 0 <= j < i ==> frame_names(self.frame())[j] != name@,
            decreases self.symbols.len() - i,
        {
            if str_eq(self.symbols[i].name.as_str(), name) {
                proof {
                    lemma_first_index(frame_names(self.frame()), name@, i as int);
                }
                return Some(i);
            }
            i += 1;
        }
        proof {
            lemma_first_index(frame_names(self.frame()), name@, i as int);
        }
        None
    }

    fn insert(&mut self, name: String, symbol: Symbol)
        ensures
            final(self)@ == define(old(self)@, name@, symbol@),
    {
        proof {
            self.lemma_model_len();
        }
        let ghost before = self.frame();
        match self.find(name.as_str()) {
            Some(i) => {
                self.symbols[i] = Entry { name: name, symbol: symbol };
                assert(self.frame() =~= frame_define(before, name@, symbol@));
            },
            None => {
                self.symbols.push(Entry { name: name, symbol: symbol });
                assert(self.frame() =~= frame_define(before, name@, symbol@));
            },
        }
        assert(self@ =~= define(old(self)@, name@, symbol@));
    }

    /// Binds `name` to a function in this scope and gives the function's index.
    pub fn def_fn(
        &mut self,
        name: String,
        arg_types: Vec<(String, Types)>,
        return_types: Types,
    ) -> (index: u8)
        requires
            next_index(old(self)@) <= 255,
        ensures
            index == next_index(old(self)@),
            final(self)@ == define(
                old(self)@,
                name@,
                SymbolView {
                    sym_type: SymbolTypeView::Function {
                        arg_types: arg_types.deep_view(),
                        return_types: return_types.deep_view(),
                    },
                    index: index,
                },
            ),
    {
        let index = match self.get_next_index() {
            Some(i) => i,
            None => 0,
        };
        self.insert(name, Symbol::new_fn(index, arg_types, return_types));
        index
    }

    /// Binds `name` to a variable in this scope and gives the variable's slot.
    pub fn def_variable(&mut self, name: String, types: Types) -> (index: u8)
        requires
            next_index(old(self)@) <= 255,
        ensures
            index == next_index(old(self)@),
            final(self)@ == define(
                old(self)@,
                name@,
                SymbolView {
                    sym_type: SymbolTypeView::Variable { types: types.deep_view() },
                    index: index,
                },
            ),
    {
        let index = match self.get_next_index() {
            Some(i) => i,
            None => 0,
        };
        self.insert(name, Symbol::new_var(index, types));
        index
    }

    /// Resolves a name, innermost scope first. The second value says whether
    /// the name was found in the global scope.
    pub fn resolve(&self, name: &String) -> (r: (Option<&Symbol>, bool))
        ensures
            r.1 == resolve(self@, name@).1,
            match r.0 {
                Some(s) => resolve(self@, name@).0 == Some(s@),
                None => resolve(self@, name@).0 is None,
            },
        decreases self,
    {
        proof {
            self.lemma_model_len();
        }
        match self.find(name.as_str()) {
            Some(i) => (Some(&self.symbols[i].symbol), self.parent.is_none()),
            None => match self.parent {
                Some(p) => {
                    proof {
                        assert(self@.drop_last() =~= p@);
                    }
                    p.resolve(name)
                },
                None => (None, self.parent.is_none()),
            },
        }
    }
}

} // verus!
