//! The parts of a parsed Rust file in which a capability can show.
//!
//! `syn` parses a file and walks its tree; what the walk meets is read into plain
//! [`Node`]s, in the order of the walk.
use crate::text::{line_count, texts};
use quote::ToTokens;
use syn::spanned::Spanned;
use syn::visit::Visit;
use vstd::prelude::*;

verus! {

/// A part of a Rust file, with the line on which it starts.
pub enum Node {
    /// `unsafe { .. }`
    UnsafeBlock { line: usize },
    /// A free function; `attributes` holds the path of each attribute.
    Function { line: usize, name: String, is_unsafe: bool, attributes: Vec<Vec<String>> },
    /// A static or a function of an `impl` block.
    Member { line: usize, name: String, attributes: Vec<Vec<String>> },
    /// An `impl` block.
    Impl { line: usize, is_unsafe: bool, self_type: String },
    /// An `extern` block.
    ForeignBlock { line: usize, abi: Option<String>, items: usize },
    /// A call; `callee` names the function, where a path does.
    Call { line: usize, callee: Option<Vec<String>> },
    /// A call of a macro.
    MacroCall { line: usize, path: Vec<String> },
}

/// What a [`Node`] holds.
pub enum NodeView {
    UnsafeBlock { line: usize },
    Function { line: usize, name: Seq<char>, is_unsafe: bool, attributes: Seq<Seq<Seq<char>>> },
    Member { line: usize, name: Seq<char>, attributes: Seq<Seq<Seq<char>>> },
    Impl { line: usize, is_unsafe: bool, self_type: Seq<char> },
    ForeignBlock { line: usize, abi: Option<Seq<char>>, items: usize },
    Call { line: usize, callee: Option<Seq<Seq<char>>> },
    MacroCall { line: usize, path: Seq<Seq<char>> },
}

/// The names that make up each path of a list.
pub open spec fn paths(list: Seq<Vec<String>>) -> Seq<Seq<Seq<char>>> {
    list.map_values(|p: Vec<String>| texts(p@))
}

impl View for Node {
    type V = NodeView;

    open spec fn view(&self) -> NodeView {
        match *self {
            Node::UnsafeBlock { line } => NodeView::UnsafeBlock { line },
            Node::Function { line, name, is_unsafe, attributes } => NodeView::Function {
                line,
                name: name@,
                is_unsafe,
                attributes: paths(attributes@),
            },
            Node::Member { line, name, attributes } => NodeView::Member {
                line,
                name: name@,
                attributes: paths(attributes@),
            },
            Node::Impl { line, is_unsafe, self_type } => NodeView::Impl {
                line,
                is_unsafe,
                self_type: self_type@,
            },
            Node::ForeignBlock { line, abi, items } => NodeView::ForeignBlock {
                line,
                abi: match abi {
                    Some(name) => Some(name@),
                    None => None,
                },
                items,
            },
            Node::Call { line, callee } => NodeView::Call {
                line,
                callee: match callee {
                    Some(names) => Some(texts(names@)),
                    None => None,
                },
            },
            Node::MacroCall { line, path } => NodeView::MacroCall { line, path: texts(path@) },
        }
    }
}

/// What the nodes of a list hold.
pub open spec fn node_views(list: Seq<Node>) -> Seq<NodeView> {
    list.map_values(|n: Node| n@)
}

/// The line on which a part starts.
pub open spec fn line_of(node: NodeView) -> usize {
    match node {
        NodeView::UnsafeBlock { line } => line,
        NodeView::Function { line, .. } => line,
        NodeView::Member { line, .. } => line,
        NodeView::Impl { line, .. } => line,
        NodeView::ForeignBlock { line, .. } => line,
        NodeView::Call { line, .. } => line,
        NodeView::MacroCall { line, .. } => line,
    }
}

/// Each part starts on one of the lines, which are counted from 1.
pub open spec fn are_within(nodes: Seq<NodeView>, lines: nat) -> bool {
    forall|i: int| 0 <= i < nodes.len() ==> 1 <= line_of(#[trigger] nodes[i]) <= lines
}

/// The nodes from position `from` on have a line: it is not 0.
pub open spec fn have_lines(nodes: Seq<Node>, from: nat) -> bool {
    forall|i: int| from <= i < nodes.len() ==> 1 <= line_of((#[trigger] nodes[i])@)
}

/// A part without its place: the line is 0.
pub open spec fn shape(node: NodeView) -> NodeView {
    match node {
        NodeView::UnsafeBlock { .. } => NodeView::UnsafeBlock { line: 0 },
        NodeView::Function { name, is_unsafe, attributes, .. } => NodeView::Function {
            line: 0,
            name,
            is_unsafe,
            attributes,
        },
        NodeView::Member { name, attributes, .. } => NodeView::Member { line: 0, name, attributes },
        NodeView::Impl { is_unsafe, self_type, .. } => NodeView::Impl {
            line: 0,
            is_unsafe,
            self_type,
        },
        NodeView::ForeignBlock { abi, items, .. } => NodeView::ForeignBlock { line: 0, abi, items },
        NodeView::Call { callee, .. } => NodeView::Call { line: 0, callee },
        NodeView::MacroCall { path, .. } => NodeView::MacroCall { line: 0, path },
    }
}

/// What the nodes of a list hold, without their places.
pub open spec fn shapes(list: Seq<Node>) -> Seq<NodeView> {
    list.map_values(|n: Node| shape(n@))
}

/// `syn::ExprUnsafe`: an unsafe block in the tree of a file.
/// What is inside is known by the names below only.
#[verifier::external_type_specification]
#[verifier::external_body]
pub struct ExExprUnsafe(syn::ExprUnsafe);

/// `syn::ItemFn`: a free function in the tree of a file.
/// What is inside is known by the names below only.
#[verifier::external_type_specification]
#[verifier::external_body]
pub struct ExItemFn(syn::ItemFn);

/// `syn::ItemStatic`: a static in the tree of a file.
/// What is inside is known by the names below only.
#[verifier::external_type_specification]
#[verifier::external_body]
pub struct ExItemStatic(syn::ItemStatic);

/// `syn::ImplItemFn`: a function of an `impl` block in the tree of a file.
/// What is inside is known by the names below only.
#[verifier::external_type_specification]
#[verifier::external_body]
pub struct ExImplItemFn(syn::ImplItemFn);

/// `syn::ItemImpl`: an `impl` block in the tree of a file.
/// What is inside is known by the names below only.
#[verifier::external_type_specification]
#[verifier::external_body]
pub struct ExItemImpl(syn::ItemImpl);

/// `syn::ItemForeignMod`: an `extern` block in the tree of a file.
/// What is inside is known by the names below only.
#[verifier::external_type_specification]
#[verifier::external_body]
pub struct ExItemForeignMod(syn::ItemForeignMod);

/// `syn::ExprCall`: a call in the tree of a file.
/// What is inside is known by the names below only.
#[verifier::external_type_specification]
#[verifier::external_body]
pub struct ExExprCall(syn::ExprCall);

/// `syn::Macro`: a call of a macro in the tree of a file.
/// What is inside is known by the names below only.
#[verifier::external_type_specification]
#[verifier::external_body]
pub struct ExMacro(syn::Macro);

/// Reads an unsafe block: the line on which `Spanned::span` says that it starts. The
/// contract says of the line only that it is counted from 1, here and in the readers
/// below: it is looked up in a table of the thread, and the node alone does not
/// determine it.
#[verifier::external_body]
fn read_expr_unsafe(node: &syn::ExprUnsafe) -> (r: Node)
    ensures
        r is UnsafeBlock,
        1 <= line_of(r@),
        shape(r@) == (NodeView::UnsafeBlock { line: 0 }),
{
    Node::UnsafeBlock { line: node.span().start().line }
}

/// The name of a free function, whether it is `unsafe`, and the paths of its attributes.
pub uninterp spec fn function_parts(node: syn::ItemFn) -> (Seq<char>, bool, Seq<Seq<Seq<char>>>);

/// Reads a free function: its line, its name, whether it is `unsafe`, and the paths of
/// its attributes, from the fields of `syn::ItemFn`. The contract names all but the line.
#[verifier::external_body]
fn read_item_fn(node: &syn::ItemFn) -> (r: Node)
    ensures
        r is Function,
        1 <= line_of(r@),
        shape(r@) == (NodeView::Function {
            line: 0,
            name: function_parts(*node).0,
            is_unsafe: function_parts(*node).1,
            attributes: function_parts(*node).2,
        }),
{
    let path = |a: &syn::Attribute| a.path().segments.iter().map(|s| s.ident.to_string()).collect();
    Node::Function {
        line: node.span().start().line,
        name: node.sig.ident.to_string(),
        is_unsafe: node.sig.unsafety.is_some(),
        attributes: node.attrs.iter().map(path).collect(),
    }
}

/// The name of a static and the paths of its attributes.
pub uninterp spec fn static_parts(node: syn::ItemStatic) -> (Seq<char>, Seq<Seq<Seq<char>>>);

/// Reads a static: its line, its name and the paths of its attributes, from the fields of
/// `syn::ItemStatic`. The contract names all but the line.
#[verifier::external_body]
fn read_item_static(node: &syn::ItemStatic) -> (r: Node)
    ensures
        r is Member,
        1 <= line_of(r@),
        shape(r@) == (NodeView::Member {
            line: 0,
            name: static_parts(*node).0,
            attributes: static_parts(*node).1,
        }),
{
    let path = |a: &syn::Attribute| a.path().segments.iter().map(|s| s.ident.to_string()).collect();
    Node::Member {
        line: node.span().start().line,
        name: node.ident.to_string(),
        attributes: node.attrs.iter().map(path).collect(),
    }
}

/// The name of a function of an `impl` block and the paths of its attributes.
pub uninterp spec fn method_parts(node: syn::ImplItemFn) -> (Seq<char>, Seq<Seq<Seq<char>>>);

/// Reads a function of an `impl` block: its line, its name and the paths of its
/// attributes, from the fields of `syn::ImplItemFn`. The contract names all but the line.
#[verifier::external_body]
fn read_impl_item_fn(node: &syn::ImplItemFn) -> (r: Node)
    ensures
        r is Member,
        1 <= line_of(r@),
        shape(r@) == (NodeView::Member {
            line: 0,
            name: method_parts(*node).0,
            attributes: method_parts(*node).1,
        }),
{
    let path = |a: &syn::Attribute| a.path().segments.iter().map(|s| s.ident.to_string()).collect();
    Node::Member {
        line: node.span().start().line,
        name: node.sig.ident.to_string(),
        attributes: node.attrs.iter().map(path).collect(),
    }
}

/// Whether an `impl` block is `unsafe`, and the tokens of the type it is for.
pub uninterp spec fn impl_parts(node: syn::ItemImpl) -> (bool, Seq<char>);

/// Reads an `impl` block: its line, whether it is `unsafe`, and the tokens of the type it
/// is for as `ToTokens::to_token_stream` writes them, from the fields of `syn::ItemImpl`.
/// The contract names all but the line.
#[verifier::external_body]
fn read_item_impl(node: &syn::ItemImpl) -> (r: Node)
    ensures
        r is Impl,
        1 <= line_of(r@),
        shape(r@) == (NodeView::Impl {
            line: 0,
            is_unsafe: impl_parts(*node).0,
            self_type: impl_parts(*node).1,
        }),
{
    Node::Impl {
        line: node.span().start().line,
        is_unsafe: node.unsafety.is_some(),
        self_type: node.self_ty.to_token_stream().to_string(),
    }
}

/// The ABI that an `extern` block names, if any, and the number of its items.
pub uninterp spec fn foreign_block_parts(node: syn::ItemForeignMod) -> (Option<Seq<char>>, usize);

/// Reads an `extern` block: its line, the ABI where one is named, and the number of its
/// items, from the fields of `syn::ItemForeignMod`. The contract names all but the line.
#[verifier::external_body]
fn read_item_foreign_mod(node: &syn::ItemForeignMod) -> (r: Node)
    ensures
        r is ForeignBlock,
        1 <= line_of(r@),
        shape(r@) == (NodeView::ForeignBlock {
            line: 0,
            abi: foreign_block_parts(*node).0,
            items: foreign_block_parts(*node).1,
        }),
{
    Node::ForeignBlock {
        line: node.span().start().line,
        abi: node.abi.name.as_ref().map(|name| name.value()),
        items: node.items.len(),
    }
}

/// The path that names the function of a call, where a path does.
pub uninterp spec fn callee_path(node: syn::ExprCall) -> Option<Seq<Seq<char>>>;

/// Reads a call: its line, and the path that names the function where the function is an
/// `Expr::Path`, from the fields of `syn::ExprCall`. The contract names all but the line.
#[verifier::external_body]
fn read_expr_call(node: &syn::ExprCall) -> (r: Node)
    ensures
        r is Call,
        1 <= line_of(r@),
        shape(r@) == (NodeView::Call { line: 0, callee: callee_path(*node) }),
{
    let callee = match &*node.func {
        syn::Expr::Path(p) => Some(p.path.segments.iter().map(|s| s.ident.to_string()).collect()),
        _ => None,
    };
    Node::Call { line: node.span().start().line, callee }
}

/// The path that names the macro of a macro call.
pub uninterp spec fn macro_path(node: syn::Macro) -> Seq<Seq<char>>;

/// Reads a call of a macro: its line and the path that names the macro, from the fields
/// of `syn::Macro`. The contract names all but the line.
#[verifier::external_body]
fn read_macro(node: &syn::Macro) -> (r: Node)
    ensures
        r is MacroCall,
        1 <= line_of(r@),
        shape(r@) == (NodeView::MacroCall { line: 0, path: macro_path(*node) }),
{
    Node::MacroCall {
        line: node.span().start().line,
        path: node.path.segments.iter().map(|s| s.ident.to_string()).collect(),
    }
}

/// The nodes that a walk over a file has met so far.
pub struct Outline {
    nodes: Vec<Node>,
}

impl View for Outline {
    type V = Seq<Node>;

    closed spec fn view(&self) -> Seq<Node> {
        self.nodes@
    }
}

/// The parts below an unsafe block, without their places, in the order of the walk.
pub uninterp spec fn below_unsafe_block(node: syn::ExprUnsafe) -> Seq<NodeView>;

/// Walks what lies below an unsafe block (`syn::visit::visit_expr_unsafe`). The walk
/// calls the methods of [`Outline`] and nothing else that could change it, and these
/// only put nodes at the end: those that the name stands for, whatever was there before.
/// Of their lines it is said only that they are counted from 1, here and below.
#[verifier::external_body]
fn below_expr_unsafe(outline: &mut Outline, node: &syn::ExprUnsafe)
    ensures
        old(outline)@.is_prefix_of(final(outline)@),
        have_lines(final(outline)@, old(outline)@.len()),
        shapes(final(outline)@) == shapes(old(outline)@) + below_unsafe_block(*node),
{
    syn::visit::visit_expr_unsafe(outline, node)
}

/// The parts below a free function, without their places, in the order of the walk.
pub uninterp spec fn below_function(node: syn::ItemFn) -> Seq<NodeView>;

/// Walks what lies below a free function (`syn::visit::visit_item_fn`), which only puts
/// nodes at the end: those that the name stands for.
#[verifier::external_body]
fn below_item_fn(outline: &mut Outline, node: &syn::ItemFn)
    ensures
        old(outline)@.is_prefix_of(final(outline)@),
        have_lines(final(outline)@, old(outline)@.len()),
        shapes(final(outline)@) == shapes(old(outline)@) + below_function(*node),
{
    syn::visit::visit_item_fn(outline, node)
}

/// The parts below a static, without their places, in the order of the walk.
pub uninterp spec fn below_static(node: syn::ItemStatic) -> Seq<NodeView>;

/// Walks what lies below a static (`syn::visit::visit_item_static`), which only puts
/// nodes at the end: those that the name stands for.
#[verifier::external_body]
fn below_item_static(outline: &mut Outline, node: &syn::ItemStatic)
    ensures
        old(outline)@.is_prefix_of(final(outline)@),
        have_lines(final(outline)@, old(outline)@.len()),
        shapes(final(outline)@) == shapes(old(outline)@) + below_static(*node),
{
    syn::visit::visit_item_static(outline, node)
}

/// The parts below a function of an `impl` block, without their places, in the order of the walk.
pub uninterp spec fn below_method(node: syn::ImplItemFn) -> Seq<NodeView>;

/// Walks what lies below a function of an `impl` block
/// (`syn::visit::visit_impl_item_fn`), which only puts nodes at the end: those that the
/// name stands for.
#[verifier::external_body]
fn below_impl_item_fn(outline: &mut Outline, node: &syn::ImplItemFn)
    ensures
        old(outline)@.is_prefix_of(final(outline)@),
        have_lines(final(outline)@, old(outline)@.len()),
        shapes(final(outline)@) == shapes(old(outline)@) + below_method(*node),
{
    syn::visit::visit_impl_item_fn(outline, node)
}

/// The parts below an `impl` block, without their places, in the order of the walk.
pub uninterp spec fn below_impl(node: syn::ItemImpl) -> Seq<NodeView>;

/// Walks what lies below an `impl` block (`syn::visit::visit_item_impl`), which only
/// puts nodes at the end: those that the name stands for.
#[verifier::external_body]
fn below_item_impl(outline: &mut Outline, node: &syn::ItemImpl)
    ensures
        old(outline)@.is_prefix_of(final(outline)@),
        have_lines(final(outline)@, old(outline)@.len()),
        shapes(final(outline)@) == shapes(old(outline)@) + below_impl(*node),
{
    syn::visit::visit_item_impl(outline, node)
}

/// The parts below an `extern` block, without their places, in the order of the walk.
pub uninterp spec fn below_foreign_block(node: syn::ItemForeignMod) -> Seq<NodeView>;

/// Walks what lies below an `extern` block (`syn::visit::visit_item_foreign_mod`),
/// which only puts nodes at the end: those that the name stands for.
#[verifier::external_body]
fn below_item_foreign_mod(outline: &mut Outline, node: &syn::ItemForeignMod)
    ensures
        old(outline)@.is_prefix_of(final(outline)@),
        have_lines(final(outline)@, old(outline)@.len()),
        shapes(final(outline)@) == shapes(old(outline)@) + below_foreign_block(*node),
{
    syn::visit::visit_item_foreign_mod(outline, node)
}

/// The parts below a call, without their places, in the order of the walk.
pub uninterp spec fn below_call(node: syn::ExprCall) -> Seq<NodeView>;

/// Walks what lies below a call (`syn::visit::visit_expr_call`), which only puts nodes
/// at the end: those that the name stands for.
#[verifier::external_body]
fn below_expr_call(outline: &mut Outline, node: &syn::ExprCall)
    ensures
        old(outline)@.is_prefix_of(final(outline)@),
        have_lines(final(outline)@, old(outline)@.len()),
        shapes(final(outline)@) == shapes(old(outline)@) + below_call(*node),
{
    syn::visit::visit_expr_call(outline, node)
}

/// The parts below a macro call, without their places, in the order of the walk.
pub uninterp spec fn below_macro_call(node: syn::Macro) -> Seq<NodeView>;

/// Walks what lies below a macro call (`syn::visit::visit_macro`), which only puts
/// nodes at the end: those that the name stands for.
#[verifier::external_body]
fn below_macro(outline: &mut Outline, node: &syn::Macro)
    ensures
        old(outline)@.is_prefix_of(final(outline)@),
        have_lines(final(outline)@, old(outline)@.len()),
        shapes(final(outline)@) == shapes(old(outline)@) + below_macro_call(*node),
{
    syn::visit::visit_macro(outline, node)
}

/// Where a part that has a line is put down, and all behind it have lines, all have from
/// there on.
proof fn first_has_a_line(before: Seq<Node>, met: Node, after: Seq<Node>)
    requires
        before.push(met).is_prefix_of(after),
        1 <= line_of(met@),
        have_lines(after, before.len() + 1),
    ensures
        have_lines(after, before.len()),
{
    assert(after.subrange(0, before.push(met).len() as int)[before.len() as int] == met);
}

/// Each part is put down when the walk meets it, and then all that lies below it.
impl<'ast> Visit<'ast> for Outline {
    fn visit_expr_unsafe(&mut self, node: &'ast syn::ExprUnsafe)
        ensures
            exists|n: Node|
                n is UnsafeBlock && #[trigger] old(self)@.push(n).is_prefix_of(final(self)@),
            have_lines(final(self)@, old(self)@.len()),
            shapes(final(self)@) == shapes(old(self)@).push(
                (NodeView::UnsafeBlock { line: 0 }),
            ) + below_unsafe_block(*node),
    {
        let met = read_expr_unsafe(node);
        let ghost n = met;
        self.nodes.push(met);
        assert(shapes(self@) =~= shapes(old(self)@).push(shape(n@)));
        below_expr_unsafe(self, node);
        assert(old(self)@.push(n).is_prefix_of(self@));
        proof {
            first_has_a_line(old(self)@, n, self@);
        }
    }

    fn visit_item_fn(&mut self, node: &'ast syn::ItemFn)
        ensures
            exists|n: Node|
                n is Function && #[trigger] old(self)@.push(n).is_prefix_of(final(self)@),
            have_lines(final(self)@, old(self)@.len()),
            shapes(final(self)@) == shapes(old(self)@).push(
                (NodeView::Function {
                    line: 0,
                    name: function_parts(*node).0,
                    is_unsafe: function_parts(*node).1,
                    attributes: function_parts(*node).2,
                }),
            ) + below_function(*node),
    {
        let met = read_item_fn(node);
        let ghost n = met;
        self.nodes.push(met);
        assert(shapes(self@) =~= shapes(old(self)@).push(shape(n@)));
        below_item_fn(self, node);
        assert(old(self)@.push(n).is_prefix_of(self@));
        proof {
            first_has_a_line(old(self)@, n, self@);
        }
    }

    fn visit_item_static(&mut self, node: &'ast syn::ItemStatic)
        ensures
            exists|n: Node|
                n is Member && #[trigger] old(self)@.push(n).is_prefix_of(final(self)@),
            have_lines(final(self)@, old(self)@.len()),
            shapes(final(self)@) == shapes(old(self)@).push(
                (NodeView::Member {
                    line: 0,
                    name: static_parts(*node).0,
                    attributes: static_parts(*node).1,
                }),
            ) + below_static(*node),
    {
        let met = read_item_static(node);
        let ghost n = met;
        self.nodes.push(met);
        assert(shapes(self@) =~= shapes(old(self)@).push(shape(n@)));
        below_item_static(self, node);
        assert(old(self)@.push(n).is_prefix_of(self@));
        proof {
            first_has_a_line(old(self)@, n, self@);
        }
    }

    fn visit_impl_item_fn(&mut self, node: &'ast syn::ImplItemFn)
        ensures
            exists|n: Node|
                n is Member && #[trigger] old(self)@.push(n).is_prefix_of(final(self)@),
            have_lines(final(self)@, old(self)@.len()),
            shapes(final(self)@) == shapes(old(self)@).push(
                (NodeView::Member {
                    line: 0,
                    name: method_parts(*node).0,
                    attributes: method_parts(*node).1,
                }),
            ) + below_method(*node),
    {
        let met = read_impl_item_fn(node);
        let ghost n = met;
        self.nodes.push(met);
        assert(shapes(self@) =~= shapes(old(self)@).push(shape(n@)));
        below_impl_item_fn(self, node);
        assert(old(self)@.push(n).is_prefix_of(self@));
        proof {
            first_has_a_line(old(self)@, n, self@);
        }
    }

    fn visit_item_impl(&mut self, node: &'ast syn::ItemImpl)
        ensures
            exists|n: Node|
                n is Impl && #[trigger] old(self)@.push(n).is_prefix_of(final(self)@),
            have_lines(final(self)@, old(self)@.len()),
            shapes(final(self)@) == shapes(old(self)@).push(
                (NodeView::Impl {
                    line: 0,
                    is_unsafe: impl_parts(*node).0,
                    self_type: impl_parts(*node).1,
                }),
            ) + below_impl(*node),
    {
        let met = read_item_impl(node);
        let ghost n = met;
        self.nodes.push(met);
        assert(shapes(self@) =~= shapes(old(self)@).push(shape(n@)));
        below_item_impl(self, node);
        assert(old(self)@.push(n).is_prefix_of(self@));
        proof {
            first_has_a_line(old(self)@, n, self@);
        }
    }

    fn visit_item_foreign_mod(&mut self, node: &'ast syn::ItemForeignMod)
        ensures
            exists|n: Node|
                n is ForeignBlock && #[trigger] old(self)@.push(n).is_prefix_of(final(self)@),
            have_lines(final(self)@, old(self)@.len()),
            shapes(final(self)@) == shapes(old(self)@).push(
                (NodeView::ForeignBlock {
                    line: 0,
                    abi: foreign_block_parts(*node).0,
                    items: foreign_block_parts(*node).1,
                }),
            ) + below_foreign_block(*node),
    {
        let met = read_item_foreign_mod(node);
        let ghost n = met;
        self.nodes.push(met);
        assert(shapes(self@) =~= shapes(old(self)@).push(shape(n@)));
        below_item_foreign_mod(self, node);
        assert(old(self)@.push(n).is_prefix_of(self@));
        proof {
            first_has_a_line(old(self)@, n, self@);
        }
    }

    fn visit_expr_call(&mut self, node: &'ast syn::ExprCall)
        ensures
            exists|n: Node|
                n is Call && #[trigger] old(self)@.push(n).is_prefix_of(final(self)@),
            have_lines(final(self)@, old(self)@.len()),
            shapes(final(self)@) == shapes(old(self)@).push(
                (NodeView::Call { line: 0, callee: callee_path(*node) }),
            ) + below_call(*node),
    {
        let met = read_expr_call(node);
        let ghost n = met;
        self.nodes.push(met);
        assert(shapes(self@) =~= shapes(old(self)@).push(shape(n@)));
        below_expr_call(self, node);
        assert(old(self)@.push(n).is_prefix_of(self@));
        proof {
            first_has_a_line(old(self)@, n, self@);
        }
    }

    fn visit_macro(&mut self, node: &'ast syn::Macro)
        ensures
            exists|n: Node|
                n is MacroCall && #[trigger] old(self)@.push(n).is_prefix_of(final(self)@),
            have_lines(final(self)@, old(self)@.len()),
            shapes(final(self)@) == shapes(old(self)@).push(
                (NodeView::MacroCall { line: 0, path: macro_path(*node) }),
            ) + below_macro_call(*node),
    {
        let met = read_macro(node);
        let ghost n = met;
        self.nodes.push(met);
        assert(shapes(self@) =~= shapes(old(self)@).push(shape(n@)));
        below_macro(self, node);
        assert(old(self)@.push(n).is_prefix_of(self@));
        proof {
            first_has_a_line(old(self)@, n, self@);
        }
    }
}

/// The most characters that are parsed for a crate, with one more for each file. A thread
/// counts the positions of all that it parses in 32 bits, those in literals that the
/// parser reads a second time included.
pub const MAX_SOURCE: usize = 0x3fff_ffff;

/// The nodes of a Rust file in the order in which `syn` walks its tree, or nothing where
/// `syn` takes the file for no Rust file.
pub uninterp spec fn parsed_nodes(source: Seq<char>) -> Option<Seq<NodeView>>;

/// Parses a Rust file with `syn::parse_file` and walks it with `syn::visit::visit_file`,
/// which calls the methods of [`Outline`]. What comes out is a function of the source
/// alone: `proc_macro2` gives the line of a position within the file, whatever the thread
/// has parsed before. A part starts with a token of the file, so its line is one of the
/// lines of the file.
///
/// Taken for granted is what the parser needs of the machine: stack for its recursion, and
/// room for the positions of this file in the table of the thread. So is that the caller
/// is no procedural macro, where the compiler reads the tokens.
#[verifier::external_body]
pub(crate) fn outline(source: &str) -> (r: Option<Vec<Node>>)
    requires
        source@.len() <= MAX_SOURCE,
    ensures
        match r {
            Some(nodes) => parsed_nodes(source@) == Some(node_views(nodes@)) && are_within(
                node_views(nodes@),
                line_count(source@),
            ),
            None => parsed_nodes(source@) is None,
        },
{
    let mut outline = Outline { nodes: Vec::new() };
    let parsed = syn::parse_file(source).map(|file| syn::visit::visit_file(&mut outline, &file));
    parsed.ok().map(|_| outline.nodes)
}

/// A part is seen with all that it holds.
pub proof fn nodes_are_seen_whole(node: Node)
    ensures
        match node {
            Node::UnsafeBlock { line } => node@ == (NodeView::UnsafeBlock { line }),
            Node::Function { line, name, is_unsafe, attributes } => node@ == (NodeView::Function {
                line,
                name: name@,
                is_unsafe,
                attributes: paths(attributes@),
            }),
            Node::Member { line, name, attributes } => node@ == (NodeView::Member {
                line,
                name: name@,
                attributes: paths(attributes@),
            }),
            Node::Impl { line, is_unsafe, self_type } => node@ == (NodeView::Impl {
                line,
                is_unsafe,
                self_type: self_type@,
            }),
            Node::ForeignBlock { line, abi: Some(name), items } => node@ == (
            NodeView::ForeignBlock { line, abi: Some(name@), items }),
            Node::ForeignBlock { line, abi: None, items } => node@ == (NodeView::ForeignBlock {
                line,
                abi: None,
                items,
            }),
            Node::Call { line, callee: Some(names) } => node@ == (NodeView::Call {
                line,
                callee: Some(texts(names@)),
            }),
            Node::Call { line, callee: None } => node@ == (NodeView::Call { line, callee: None }),
            Node::MacroCall { line, path } => node@ == (NodeView::MacroCall {
                line,
                path: texts(path@),
            }),
        },
{
}

/// Each part and each path of a list is seen, in the order of the list.
pub proof fn lists_of_nodes_are_seen_whole(nodes: Seq<Node>, list: Seq<Vec<String>>)
    ensures
        node_views(nodes).len() == nodes.len(),
        shapes(nodes).len() == nodes.len(),
        forall|i: int| 0 <= i < nodes.len() ==> #[trigger] node_views(nodes)[i] == nodes[i]@,
        forall|i: int| 0 <= i < nodes.len() ==> #[trigger] shapes(nodes)[i] == shape(nodes[i]@),
        paths(list).len() == list.len(),
        forall|i: int| 0 <= i < list.len() ==> #[trigger] paths(list)[i] == texts(list[i]@),
{
}

/// A part without its place differs from the part by its line only.
pub proof fn place_is_the_line(node: NodeView)
    ensures
        match node {
            NodeView::UnsafeBlock { line } => line_of(node) == line && shape(node) == (
            NodeView::UnsafeBlock { line: 0 }),
            NodeView::Function { line, name, is_unsafe, attributes } => line_of(node) == line
                && shape(node) == (NodeView::Function { line: 0, name, is_unsafe, attributes }),
            NodeView::Member { line, name, attributes } => line_of(node) == line && shape(node)
                == (NodeView::Member { line: 0, name, attributes }),
            NodeView::Impl { line, is_unsafe, self_type } => line_of(node) == line && shape(node)
                == (NodeView::Impl { line: 0, is_unsafe, self_type }),
            NodeView::ForeignBlock { line, abi, items } => line_of(node) == line && shape(node)
                == (NodeView::ForeignBlock { line: 0, abi, items }),
            NodeView::Call { line, callee } => line_of(node) == line && shape(node) == (
            NodeView::Call { line: 0, callee }),
            NodeView::MacroCall { line, path } => line_of(node) == line && shape(node) == (
            NodeView::MacroCall { line: 0, path }),
        },
{
}

/// Where parts start on the lines of a file, none starts before the first or behind the
/// last.
pub proof fn parts_start_within(nodes: Seq<NodeView>, lines: nat, i: int)
    requires
        are_within(nodes, lines),
        0 <= i < nodes.len(),
    ensures
        1 <= line_of(nodes[i]) <= lines,
{
}

/// Where nodes have lines from a position on, each that stands there or behind it has one.
pub proof fn lines_start_at_one(nodes: Seq<Node>, from: nat, i: int)
    requires
        have_lines(nodes, from),
        from <= i < nodes.len(),
    ensures
        1 <= line_of(nodes[i]@),
{
}

} // verus!
