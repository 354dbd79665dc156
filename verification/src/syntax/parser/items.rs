//! Items.

use vstd::prelude::*;
use crate::syntax::ast::{
    attrs_view, item_opt_view, items_view, methods_opt_view, type_opt_view, Attribute, EnumItem,
    FnItem, ImplItem, Item, ItemKind, StructItem, TypeName,
};
use crate::syntax::grammar;
use crate::syntax::lexer::{Keyword, Punct, Span, TokenKind};
use crate::text::{cat3, own};
use crate::syntax::parser::Parser;

verus! {

impl Parser {
    pub(super) fn recover_to_item(&mut self)
        requires
            old(self).wf(),
        ensures
            final(self).st() == grammar::recover_to_item(old(self).st()),
            old(self).leads_to(final(self)),
            old(self).at < old(self).tokens@.len() && !grammar::begins_item(old(self).st())
                ==> final(self).at > old(self).at,
    {
        while self.at < self.tokens.len()
            invariant
                old(self).leads_to(self),
                self.at == old(self).at ==> self.st() == old(self).st(),
                grammar::recover_to_item(old(self).st()) == grammar::recover_to_item(self.st()),
            decreases self.tokens.len() - self.at,
        {
            proof {
                reveal(grammar::recover_to_item);
            }
            if self.is_keyword(Keyword::Fn) || self.is_keyword(Keyword::Struct)
                || self.is_keyword(Keyword::Enum) || self.is_keyword(Keyword::Impl)
                || self.is_punct(Punct::Hash) {
                return;
            }
            self.bump();
        }
        proof {
            reveal(grammar::recover_to_item);
        }
    }

    /// `fn name<..>(..) -> T { .. }`, from after the `fn`.
    pub(super) fn fn_item(&mut self, attrs: Vec<Attribute>, start: usize) -> (r: Option<Item>)
        requires
            old(self).wf(),
        ensures
            (final(self).st(), item_opt_view(r)) == grammar::fn_item(old(self).st(), attrs_view(attrs@), start),
            old(self).leads_to(final(self)),
            r is Some ==> final(self).at > old(self).at,
    {
        proof {
            reveal(grammar::fn_item);
        }
        let name = match self.ident() {
            Some(name) => name,
            None => return None,
        };
        let generics = match self.generics() {
            Some(generics) => generics,
            None => return None,
        };
        if !self.expect(Punct::LParen, "(") {
            return None;
        }
        let receiver = self.receiver();
        if receiver.is_some() {
            let _comma = self.eat_punct(Punct::Comma);
        }
        let params = match self.params() {
            Some(params) => params,
            None => return None,
        };
        if !self.expect(Punct::RParen, ")") {
            return None;
        }
        let ret = match self.fn_return() {
            Some(ret) => ret,
            None => return None,
        };
        let body = match self.block() {
            Some(body) => body,
            None => return None,
        };
        let span = Span { start, end: body.span.end };
        Some(
            Item {
                attrs,
                kind: ItemKind::Fn(FnItem { name, generics, receiver, params, ret, body }),
                span,
            },
        )
    }

    /// The optional return type of a function.
    pub(super) fn fn_return(&mut self) -> (r: Option<Option<TypeName>>)
        requires
            old(self).wf(),
        ensures
            (
                final(self).st(),
                match r {
                    Some(ty) => Some(type_opt_view(ty)),
                    None => None,
                },
            ) == grammar::fn_return(old(self).st()),
            old(self).leads_to(final(self)),
    {
        proof {
            reveal(grammar::fn_return);
        }
        if !self.eat_punct(Punct::Arrow) {
            return Some(None);
        }
        match self.written_type() {
            Some(ty) => Some(Some(ty)),
            None => None,
        }
    }

    /// `struct Point { x: i32, y: i32 }`, from after the `struct`.
    pub(super) fn struct_item(&mut self, attrs: Vec<Attribute>, start: usize) -> (r: Option<Item>)
        requires
            old(self).wf(),
        ensures
            (final(self).st(), item_opt_view(r)) == grammar::struct_item(old(self).st(), attrs_view(attrs@), start),
            old(self).leads_to(final(self)),
            r is Some ==> final(self).at > old(self).at,
    {
        proof {
            reveal(grammar::struct_item);
        }
        let name = match self.ident() {
            Some(name) => name,
            None => return None,
        };
        let generics = match self.generics() {
            Some(generics) => generics,
            None => return None,
        };
        if !self.expect(Punct::LBrace, "{") {
            return None;
        }
        let fields = match self.field_defs() {
            Some(fields) => fields,
            None => return None,
        };
        if !self.expect(Punct::RBrace, "}") {
            return None;
        }
        let span = self.since(start);
        Some(Item { attrs, kind: ItemKind::Struct(StructItem { name, generics, fields }), span })
    }

    /// `enum State { Idle, Chasing { target: i32 } }`, from after the `enum`.
    pub(super) fn enum_item(&mut self, attrs: Vec<Attribute>, start: usize) -> (r: Option<Item>)
        requires
            old(self).wf(),
        ensures
            (final(self).st(), item_opt_view(r)) == grammar::enum_item(old(self).st(), attrs_view(attrs@), start),
            old(self).leads_to(final(self)),
            r is Some ==> final(self).at > old(self).at,
    {
        proof {
            reveal(grammar::enum_item);
        }
        let name = match self.ident() {
            Some(name) => name,
            None => return None,
        };
        if !self.expect(Punct::LBrace, "{") {
            return None;
        }
        let variants = match self.variant_defs() {
            Some(variants) => variants,
            None => return None,
        };
        if !self.expect(Punct::RBrace, "}") {
            return None;
        }
        let span = self.since(start);
        Some(Item { attrs, kind: ItemKind::Enum(EnumItem { name, variants }), span })
    }

    pub(super) fn item(&mut self) -> (r: Option<Item>)
        requires
            old(self).wf(),
        ensures
            (final(self).st(), item_opt_view(r)) == grammar::item(old(self).st()),
            old(self).leads_to(final(self)),
            r is Some ==> final(self).at > old(self).at,
            grammar::begins_item(old(self).st()) ==> final(self).at > old(self).at,
        decreases old(self).st().left(), 1int,
    {
        proof {
            reveal(grammar::item);
            reveal(grammar::impl_item);
        }
        let start: usize = self.span().start;
        let attrs = self.attributes();
        if self.is_keyword(Keyword::Fn) {
            self.bump();
            return self.fn_item(attrs, start);
        }
        if self.is_keyword(Keyword::Struct) {
            self.bump();
            return self.struct_item(attrs, start);
        }
        if self.is_keyword(Keyword::Enum) {
            self.bump();
            return self.enum_item(attrs, start);
        }
        if self.is_keyword(Keyword::Impl) {
            self.bump();
            return self.impl_item(attrs, start);
        }
        match self.kind() {
            Some(TokenKind::Reserved(word)) => {
                let message = cat3(
                    "'",
                    word.as_str(),
                    "' is reserved for a future version of minewell and cannot be used",
                );
                self.fault(message);
            },
            _ => self.fault(own("expected an item")),
        }
        None
    }

    /// `impl Point { fn bump(&mut self) { .. } }`, from after the `impl`.
    pub(super) fn impl_item(&mut self, attrs: Vec<Attribute>, start: usize) -> (r: Option<Item>)
        requires
            old(self).wf(),
        ensures
            (final(self).st(), item_opt_view(r)) == grammar::impl_item(old(self).st(), attrs_view(attrs@), start),
            old(self).leads_to(final(self)),
            r is Some ==> final(self).at > old(self).at,
        decreases old(self).st().left(), 3int,
    {
        proof {
            reveal(grammar::impl_item);
            reveal(grammar::methods);
        }
        let ty = match self.ident() {
            Some(ty) => ty,
            None => return None,
        };
        if !self.expect(Punct::LBrace, "{") {
            return None;
        }
        let methods = match self.methods() {
            Some(methods) => methods,
            None => return None,
        };
        if !self.expect(Punct::RBrace, "}") {
            return None;
        }
        let span = self.since(start);
        let ghost shown = items_view(methods@);
        let kind = ItemKind::Impl(ImplItem { ty, methods });
        proof {
            assert(kind@->Impl_1 =~= shown);
        }
        Some(Item { attrs, kind, span })
    }

    pub(super) fn methods(&mut self) -> (r: Option<Vec<Item>>)
        requires
            old(self).wf(),
        ensures
            (final(self).st(), methods_opt_view(r)) == grammar::methods(old(self).st(), seq![]),
            old(self).leads_to(final(self)),
        decreases old(self).st().left(), 2int,
    {
        let mut list: Vec<Item> = Vec::new();
        proof {
            assert(items_view(list@) =~= seq![]);
        }
        loop
            invariant
                old(self).leads_to(self),
                grammar::methods(old(self).st(), seq![]) == grammar::methods(
                    self.st(),
                    items_view(list@),
                ),
            decreases self.tokens.len() - self.at,
        {
            proof {
                reveal(grammar::methods);
                reveal(grammar::item);
            }
            if self.is_punct(Punct::RBrace) {
                return Some(list);
            }
            match self.item() {
                Some(one) => {
                    let ghost before = items_view(list@);
                    let ghost shown = one@;
                    list.push(one);
                    proof {
                        assert(items_view(list@) =~= before.push(shown));
                    }
                },
                None => return None,
            }
        }
    }

    pub(super) fn items(&mut self) -> (r: Vec<Item>)
        requires
            old(self).wf(),
        ensures
            (final(self).st(), items_view(r@)) == grammar::items(old(self).st(), seq![]),
            old(self).leads_to(final(self)),
    {
        let mut list: Vec<Item> = Vec::new();
        proof {
            assert(items_view(list@) =~= seq![]);
        }
        loop
            invariant
                old(self).leads_to(self),
                grammar::items(old(self).st(), seq![]) == grammar::items(
                    self.st(),
                    items_view(list@),
                ),
            decreases self.tokens.len() - self.at,
        {
            proof {
                reveal(grammar::items);
            }
            if self.at >= self.tokens.len() {
                return list;
            }
            let ghost before = *self;
            match self.item() {
                Some(one) => {
                    let ghost kept = items_view(list@);
                    let ghost shown = one@;
                    list.push(one);
                    proof {
                        assert(items_view(list@) =~= kept.push(shown));
                    }
                },
                None => {
                    let ghost stuck = *self;
                    self.recover_to_item();
                    proof {
                        assert(stuck.at == before.at ==> stuck.st().kind() == before.st().kind());
                    }
                },
            }
        }
    }
}

} // verus!
