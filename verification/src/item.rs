//! Language items and abstract-syntax tree.
//!
//! A [`Block`] is an ordered run of [`BlockItem`]s, each either a literal
//! [`StackItem`] to push or a call by name. The ghost models ([`BlockView`],
//! [`BlockItemView`], [`StackItemView`]) mirror this structure over `Seq` and
//! `int`, and every contract in the crate speaks of them.

use vstd::prelude::*;

verus! {

/// The equivalent of a routine/function: an ordered run of program elements.
#[derive(Debug, PartialEq)]
pub struct Block(pub Vec<BlockItem>);

/// Language items only valid in a block.
#[derive(Debug, PartialEq)]
pub enum BlockItem {
    Call(String),
    Literal(StackItem),
}

/// Language items only valid on the stack: the runtime values.
///
/// Integers are machine integers; this build has no floating-point value
/// variant, so numbers are integers throughout.
#[derive(Debug, PartialEq)]
pub enum StackItem {
    Integer(i64),
    String(String),
    Boolean(bool),
    Symbol(String),
    Block(Block),
}

/// Ghost model of a [`Block`].
#[verifier::ext_equal]
pub ghost struct BlockView {
    pub items: Seq<BlockItemView>,
}

/// Ghost model of a [`BlockItem`].
#[verifier::ext_equal]
pub ghost enum BlockItemView {
    Call(Seq<char>),
    Literal(StackItemView),
}

/// Ghost model of a [`StackItem`].
#[verifier::ext_equal]
pub ghost enum StackItemView {
    Integer(int),
    Str(Seq<char>),
    Boolean(bool),
    Symbol(Seq<char>),
    Block(BlockView),
}

impl View for Block {
    type V = BlockView;

    open spec fn view(&self) -> BlockView
        decreases self,
    {
        BlockView { items: items_view(self.0@) }
    }
}

/// The ghost model of a run of block items, element by element.
pub open spec fn items_view(s: Seq<BlockItem>) -> Seq<BlockItemView>
    decreases s,
{
    if s.len() == 0 {
        Seq::empty()
    } else {
        items_view(s.drop_last()).push(s.last()@)
    }
}

/// `items_view` keeps the length and models each element in place.
pub proof fn lemma_items_view(s: Seq<BlockItem>)
    ensures
        items_view(s).len() == s.len(),
        forall|i: int| 0 <= i < s.len() ==> items_view(s)[i] == s[i]@,
    decreases s.len(),
{
    if s.len() > 0 {
        lemma_items_view(s.drop_last());
        assert(items_view(s) == items_view(s.drop_last()).push(s.last()@));
        assert forall|i: int| 0 <= i < s.len() implies items_view(s)[i] == s[i]@ by {
            if i < s.len() - 1 {
                assert(s.drop_last()[i] == s[i]);
            }
        }
    }
}

/// Appending one item appends its model.
pub proof fn lemma_items_view_push(s: Seq<BlockItem>, x: BlockItem)
    ensures
        items_view(s.push(x)) == items_view(s).push(x@),
{
    assert(s.push(x).drop_last() =~= s);
    assert(s.push(x).last() == x);
}

impl View for BlockItem {
    type V = BlockItemView;

    open spec fn view(&self) -> BlockItemView
        decreases self,
    {
        match self {
            BlockItem::Call(name) => BlockItemView::Call(name@),
            BlockItem::Literal(item) => BlockItemView::Literal(item@),
        }
    }
}

impl View for StackItem {
    type V = StackItemView;

    open spec fn view(&self) -> StackItemView
        decreases self,
    {
        match self {
            StackItem::Integer(i) => StackItemView::Integer(*i as int),
            StackItem::String(s) => StackItemView::Str(s@),
            StackItem::Boolean(b) => StackItemView::Boolean(*b),
            StackItem::Symbol(s) => StackItemView::Symbol(s@),
            StackItem::Block(b) => StackItemView::Block(b@),
        }
    }
}

impl Block {
    /// Copy the whole block by value; the copy has the same model.
    pub fn duplicate(&self) -> (r: Block)
        ensures
            r@ == self@,
        decreases self,
    {
        let mut items: Vec<BlockItem> = Vec::new();
        let mut i: usize = 0;
        while i < self.0.len()
            invariant
                i <= self.0.len(),
                items@.len() == i as int,
                forall|j: int| 0 <= j < i ==> items@[j]@ == self.0@[j]@,
            decreases self.0.len() - i,
        {
            items.push(self.0[i].duplicate());
            i += 1;
        }
        let r = Block(items);
        proof {
            lemma_items_view(r.0@);
            lemma_items_view(self.0@);
            assert(r@.items =~= self@.items);
            assert(r@ =~= self@);
        }
        r
    }

    /// Structural equality of two blocks, decided element by element.
    pub fn deep_eq(&self, other: &Block) -> (r: bool)
        ensures
            r == (self@ == other@),
        decreases self,
    {
        proof {
            lemma_items_view(self.0@);
            lemma_items_view(other.0@);
        }
        if self.0.len() != other.0.len() {
            return false;
        }
        let mut i: usize = 0;
        while i < self.0.len()
            invariant
                i <= self.0.len(),
                self.0@.len() == other.0@.len(),
                items_view(self.0@).len() == self.0@.len(),
                items_view(other.0@).len() == other.0@.len(),
                forall|j: int| 0 <= j < self.0@.len() ==> items_view(self.0@)[j] == self.0@[j]@,
                forall|j: int| 0 <= j < other.0@.len() ==> items_view(other.0@)[j] == other.0@[j]@,
                forall|j: int| 0 <= j < i ==> self.0@[j]@ == other.0@[j]@,
            decreases self.0.len() - i,
        {
            if !self.0[i].deep_eq(&other.0[i]) {
                proof {
                    assert(items_view(self.0@)[i as int] != items_view(other.0@)[i as int]);
                }
                return false;
            }
            i += 1;
        }
        proof {
            assert(self@.items =~= other@.items);
            assert(self@ =~= other@);
        }
        true
    }
}

impl BlockItem {
    /// Copy the item by value; the copy has the same model.
    pub fn duplicate(&self) -> (r: BlockItem)
        ensures
            r@ == self@,
        decreases self,
    {
        match self {
            BlockItem::Call(name) => BlockItem::Call(name.clone()),
            BlockItem::Literal(item) => BlockItem::Literal(item.duplicate()),
        }
    }

    /// Structural equality of two block items.
    pub fn deep_eq(&self, other: &BlockItem) -> (r: bool)
        ensures
            r == (self@ == other@),
        decreases self,
    {
        match (self, other) {
            (BlockItem::Call(a), BlockItem::Call(b)) => *a == *b,
            (BlockItem::Literal(a), BlockItem::Literal(b)) => a.deep_eq(b),
            _ => false,
        }
    }
}

impl StackItem {
    /// Copy the value; the copy has the same model.
    pub fn duplicate(&self) -> (r: StackItem)
        ensures
            r@ == self@,
        decreases self,
    {
        match self {
            StackItem::Integer(i) => StackItem::Integer(*i),
            StackItem::String(s) => StackItem::String(s.clone()),
            StackItem::Boolean(b) => StackItem::Boolean(*b),
            StackItem::Symbol(s) => StackItem::Symbol(s.clone()),
            StackItem::Block(b) => StackItem::Block(b.duplicate()),
        }
    }

    /// Structural equality of two runtime values, as the `eq` builtin
    /// decides it: models are compared, blocks by structural content.
    pub fn deep_eq(&self, other: &StackItem) -> (r: bool)
        ensures
            r == (self@ == other@),
        decreases self,
    {
        match (self, other) {
            (StackItem::Integer(a), StackItem::Integer(b)) => *a == *b,
            (StackItem::String(a), StackItem::String(b)) => *a == *b,
            (StackItem::Boolean(a), StackItem::Boolean(b)) => *a == *b,
            (StackItem::Symbol(a), StackItem::Symbol(b)) => *a == *b,
            (StackItem::Block(a), StackItem::Block(b)) => a.deep_eq(b),
            _ => false,
        }
    }
}

/// The text of one string-literal character: quote, newline, carriage
/// return and tab print escaped, everything else prints as itself.
pub open spec fn esc_of(c: char) -> Seq<char> {
    if c == '"' {
        seq!['\\', '"']
    } else if c == '\n' {
        seq!['\\', 'n']
    } else if c == '\r' {
        seq!['\\', 'r']
    } else if c == '\t' {
        seq!['\\', 't']
    } else {
        seq![c]
    }
}

/// The escaped text of a whole string value.
pub open spec fn escape_str(s: Seq<char>) -> Seq<char>
    decreases s.len(),
{
    if s.len() == 0 {
        Seq::empty()
    } else {
        esc_of(s[0]) + escape_str(s.drop_first())
    }
}

/// The textual form of one runtime value: integers as their decimal
/// literal, strings quoted, booleans as `true`/`false`, symbols with a
/// leading `:`, blocks as their items space-separated inside `{ }`.
pub open spec fn render_stack_item(v: StackItemView) -> Seq<char>
    decreases v,
{
    match v {
        StackItemView::Integer(i) => crate::text::int_dec_seq(i),
        StackItemView::Str(s) => seq!['"'] + escape_str(s) + seq!['"'],
        StackItemView::Boolean(b) => if b {
            seq!['t', 'r', 'u', 'e']
        } else {
            seq!['f', 'a', 'l', 's', 'e']
        },
        StackItemView::Symbol(s) => seq![':'] + s,
        StackItemView::Block(b) => seq!['{', ' '] + render_items(b.items) + seq!['}'],
    }
}

/// The textual form of one block item: a call as its bare name, a literal
/// as its value.
pub open spec fn render_item(it: BlockItemView) -> Seq<char>
    decreases it,
{
    match it {
        BlockItemView::Call(name) => name,
        BlockItemView::Literal(v) => render_stack_item(v),
    }
}

/// The textual form of a run of block items, each followed by one space.
pub open spec fn render_items(items: Seq<BlockItemView>) -> Seq<char>
    decreases items,
{
    if items.len() == 0 {
        Seq::empty()
    } else {
        render_item(items[0]) + seq![' '] + render_items(items.drop_first())
    }
}

/// Rendering one more item appends its text and a space.
pub proof fn lemma_render_items_snoc(s: Seq<BlockItemView>, i: int)
    requires
        0 <= i < s.len(),
    ensures
        render_items(s.take(i + 1)) == render_items(s.take(i)) + render_item(s[i]) + seq![' '],
    decreases i,
{
    if i == 0 {
        assert(s.take(1)[0] == s[0]);
        assert(s.take(1).drop_first() =~= Seq::<BlockItemView>::empty());
        assert(s.take(0) =~= Seq::<BlockItemView>::empty());
        assert(render_items(s.take(1)) =~= render_items(s.take(0)) + render_item(s[0]) + seq![' ']);
    } else {
        let sdf = s.drop_first();
        lemma_render_items_snoc(sdf, i - 1);
        assert(s.take(i + 1)[0] == s[0]);
        assert(s.take(i + 1).drop_first() =~= sdf.take(i));
        assert(s.take(i)[0] == s[0]);
        assert(s.take(i).drop_first() =~= sdf.take(i - 1));
        assert(sdf[i - 1] == s[i]);
        assert(render_items(s.take(i + 1)) == render_item(s[0]) + seq![' '] + render_items(
            sdf.take(i),
        ));
        assert(render_items(s.take(i)) == render_item(s[0]) + seq![' '] + render_items(
            sdf.take(i - 1),
        ));
        assert(render_item(s[0]) + seq![' '] + (render_items(sdf.take(i - 1)) + render_item(
            s[i],
        ) + seq![' ']) =~= (render_item(s[0]) + seq![' '] + render_items(sdf.take(i - 1)))
            + render_item(s[i]) + seq![' ']);
    }
}

impl StackItem {
    /// Append the textual form of this value to `out`.
    fn render_chars(&self, out: &mut Vec<char>)
        ensures
            final(out)@ == old(out)@ + render_stack_item(self@),
        decreases self,
    {
        match self {
            StackItem::Integer(i) => {
                let s = crate::text::i64_to_string(*i);
                let v = crate::text::str_to_chars(s.as_str());
                let ghost pre = out@;
                append_chars(out, &v);
                proof {
                    assert(out@ =~= pre + render_stack_item(self@));
                }
            },
            StackItem::String(s) => {
                out.push('"');
                let v = crate::text::str_to_chars(s.as_str());
                let ghost pre = out@;
                let mut i: usize = 0;
                while i < v.len()
                    invariant
                        i <= v@.len(),
                        out@ == pre + escape_str(v@.take(i as int)),
                    decreases v@.len() - i,
                {
                    let c = v[i];
                    let ghost mid = out@;
                    if c == '"' {
                        out.push('\\');
                        out.push('"');
                    } else if c == '\n' {
                        out.push('\\');
                        out.push('n');
                    } else if c == '\r' {
                        out.push('\\');
                        out.push('r');
                    } else if c == '\t' {
                        out.push('\\');
                        out.push('t');
                    } else {
                        out.push(c);
                    }
                    proof {
                        lemma_escape_str_snoc(v@, i as int);
                        assert(out@ =~= mid + esc_of(v@[i as int]));
                        assert(out@ =~= pre + escape_str(v@.take(i as int + 1)));
                    }
                    i += 1;
                }
                out.push('"');
                proof {
                    assert(v@.take(v@.len() as int) =~= v@);
                    assert(out@ =~= old(out)@ + render_stack_item(self@));
                }
            },
            StackItem::Boolean(b) => {
                if *b {
                    out.push('t');
                    out.push('r');
                    out.push('u');
                    out.push('e');
                } else {
                    out.push('f');
                    out.push('a');
                    out.push('l');
                    out.push('s');
                    out.push('e');
                }
                proof {
                    assert(out@ =~= old(out)@ + render_stack_item(self@));
                }
            },
            StackItem::Symbol(s) => {
                out.push(':');
                let v = crate::text::str_to_chars(s.as_str());
                let ghost pre = out@;
                append_chars(out, &v);
                proof {
                    assert(out@ =~= old(out)@ + render_stack_item(self@));
                }
            },
            StackItem::Block(b) => {
                out.push('{');
                out.push(' ');
                b.render_chars_items(out);
                out.push('}');
                proof {
                    assert(out@ =~= old(out)@ + render_stack_item(self@));
                }
            },
        }
    }

    /// The textual form of this value.
    pub fn render(&self) -> (r: String)
        ensures
            r@ == render_stack_item(self@),
    {
        let mut out: Vec<char> = Vec::new();
        self.render_chars(&mut out);
        proof {
            assert(out@ =~= render_stack_item(self@));
        }
        crate::text::chars_to_string(&out)
    }
}

/// Growing the string by one character appends its escaped text.
pub proof fn lemma_escape_str_snoc(s: Seq<char>, i: int)
    requires
        0 <= i < s.len(),
    ensures
        escape_str(s.take(i + 1)) == escape_str(s.take(i)) + esc_of(s[i]),
    decreases i,
{
    if i == 0 {
        assert(s.take(1)[0] == s[0]);
        assert(s.take(1).drop_first() =~= Seq::<char>::empty());
        assert(s.take(0) =~= Seq::<char>::empty());
        assert(escape_str(s.take(1)) =~= escape_str(s.take(0)) + esc_of(s[0]));
    } else {
        let sdf = s.drop_first();
        lemma_escape_str_snoc(sdf, i - 1);
        assert(s.take(i + 1)[0] == s[0]);
        assert(s.take(i + 1).drop_first() =~= sdf.take(i));
        assert(s.take(i)[0] == s[0]);
        assert(s.take(i).drop_first() =~= sdf.take(i - 1));
        assert(sdf[i - 1] == s[i]);
        assert(esc_of(s[0]) + (escape_str(sdf.take(i - 1)) + esc_of(s[i])) =~= (esc_of(s[0])
            + escape_str(sdf.take(i - 1))) + esc_of(s[i]));
    }
}

/// Append all of `v` to `out`.
fn append_chars(out: &mut Vec<char>, v: &Vec<char>)
    ensures
        final(out)@ == old(out)@ + v@,
{
    let mut i: usize = 0;
    while i < v.len()
        invariant
            i <= v@.len(),
            out@ == old(out)@ + v@.take(i as int),
        decreases v@.len() - i,
    {
        let ghost mid = out@;
        out.push(v[i]);
        proof {
            assert(out@ =~= old(out)@ + v@.take(i as int + 1));
        }
        i += 1;
    }
    proof {
        assert(v@.take(v@.len() as int) =~= v@);
    }
}

impl BlockItem {
    /// Append the textual form of this item to `out`.
    fn render_chars(&self, out: &mut Vec<char>)
        ensures
            final(out)@ == old(out)@ + render_item(self@),
        decreases self,
    {
        match self {
            BlockItem::Call(name) => {
                let v = crate::text::str_to_chars(name.as_str());
                append_chars(out, &v);
            },
            BlockItem::Literal(item) => {
                item.render_chars(out);
            },
        }
    }
}

impl Block {
    /// Append the textual form of every item, each followed by one space.
    fn render_chars_items(&self, out: &mut Vec<char>)
        ensures
            final(out)@ == old(out)@ + render_items(self@.items),
        decreases self,
    {
        proof {
            lemma_items_view(self.0@);
        }
        let mut i: usize = 0;
        while i < self.0.len()
            invariant
                i <= self.0@.len(),
                items_view(self.0@).len() == self.0@.len(),
                forall|j: int| 0 <= j < self.0@.len() ==> items_view(self.0@)[j] == self.0@[j]@,
                out@ == old(out)@ + render_items(items_view(self.0@).take(i as int)),
            decreases self.0@.len() - i,
        {
            let ghost mid = out@;
            self.0[i].render_chars(out);
            out.push(' ');
            proof {
                lemma_render_items_snoc(items_view(self.0@), i as int);
                assert(out@ =~= mid + render_item(self.0@[i as int]@) + seq![' ']);
                assert(out@ =~= old(out)@ + render_items(
                    items_view(self.0@).take(i as int + 1),
                ));
            }
            i += 1;
        }
        proof {
            assert(items_view(self.0@).take(self.0@.len() as int) =~= items_view(self.0@));
        }
    }

    /// The textual form of the block's contents: its items space-separated,
    /// without surrounding braces. Re-parsing this text yields a block with
    /// the same structure.
    pub fn render(&self) -> (r: String)
        ensures
            r@ == render_items(self@.items),
    {
        let mut out: Vec<char> = Vec::new();
        self.render_chars_items(&mut out);
        proof {
            assert(out@ =~= render_items(self@.items));
        }
        crate::text::chars_to_string(&out)
    }
}

/// The textual form of a run of stack values, each followed by one space.
pub open spec fn render_stack_values(values: Seq<StackItemView>) -> Seq<char>
    decreases values.len(),
{
    if values.len() == 0 {
        Seq::empty()
    } else {
        render_stack_item(values[0]) + seq![' '] + render_stack_values(values.drop_first())
    }
}

/// Rendering one more stack value appends its text and a space.
pub proof fn lemma_render_stack_values_snoc(s: Seq<StackItemView>, i: int)
    requires
        0 <= i < s.len(),
    ensures
        render_stack_values(s.take(i + 1)) == render_stack_values(s.take(i)) + render_stack_item(
            s[i],
        ) + seq![' '],
    decreases i,
{
    if i == 0 {
        assert(s.take(1)[0] == s[0]);
        assert(s.take(1).drop_first() =~= Seq::<StackItemView>::empty());
        assert(s.take(0) =~= Seq::<StackItemView>::empty());
        assert(render_stack_values(s.take(1)) =~= render_stack_values(s.take(0))
            + render_stack_item(s[0]) + seq![' ']);
    } else {
        let sdf = s.drop_first();
        lemma_render_stack_values_snoc(sdf, i - 1);
        assert(s.take(i + 1)[0] == s[0]);
        assert(s.take(i + 1).drop_first() =~= sdf.take(i));
        assert(s.take(i)[0] == s[0]);
        assert(s.take(i).drop_first() =~= sdf.take(i - 1));
        assert(sdf[i - 1] == s[i]);
        assert(render_stack_item(s[0]) + seq![' '] + (render_stack_values(sdf.take(i - 1))
            + render_stack_item(s[i]) + seq![' ']) =~= (render_stack_item(s[0]) + seq![' ']
            + render_stack_values(sdf.take(i - 1))) + render_stack_item(s[i]) + seq![' ']);
    }
}

/// The global stack of runtime values, last in first out.
#[derive(Debug, PartialEq)]
pub struct Stack(pub Vec<StackItem>);

impl View for Stack {
    type V = Seq<StackItemView>;

    open spec fn view(&self) -> Seq<StackItemView> {
        Seq::new(self.0@.len(), |i: int| self.0@[i]@)
    }
}

impl Stack {
    /// Remove and return the top value; an empty stack reports
    /// `StackUnderflow` and is left unchanged.
    pub fn pop(&mut self) -> (r: Result<StackItem, crate::vm::Error>)
        ensures
            old(self)@.len() == 0 ==> {
                &&& r matches Err(e) && e is StackUnderflow
                &&& final(self)@ == old(self)@
            },
            old(self)@.len() > 0 ==> {
                &&& r matches Ok(v) && v@ == old(self)@.last()
                &&& final(self)@ == old(self)@.drop_last()
            },
    {
        match self.0.pop() {
            Some(v) => {
                proof {
                    assert(self@ =~= old(self)@.drop_last());
                }
                Ok(v)
            },
            None => {
                proof {
                    assert(self@ =~= old(self)@);
                }
                Err(crate::vm::Error::StackUnderflow)
            },
        }
    }

    /// The textual form of the whole stack: its values space-separated,
    /// bottom first.
    pub fn render(&self) -> (r: String)
        ensures
            r@ == render_stack_values(self@),
    {
        let mut out: Vec<char> = Vec::new();
        let mut i: usize = 0;
        while i < self.0.len()
            invariant
                i <= self.0@.len(),
                out@ == render_stack_values(self@.take(i as int)),
            decreases self.0@.len() - i,
        {
            let ghost mid = out@;
            self.0[i].render_chars(&mut out);
            out.push(' ');
            proof {
                lemma_render_stack_values_snoc(self@, i as int);
                assert(out@ =~= mid + render_stack_item(self@[i as int]) + seq![' ']);
            }
            i += 1;
        }
        proof {
            assert(self@.take(self.0@.len() as int) =~= self@);
        }
        crate::text::chars_to_string(&out)
    }

    /// Put a value on top of the stack.
    pub fn push(&mut self, item: StackItem)
        ensures
            final(self)@ == old(self)@.push(item@),
    {
        let ghost it = item@;
        self.0.push(item);
        proof {
            assert(self@ =~= old(self)@.push(it));
        }
    }
}

} // verus!
