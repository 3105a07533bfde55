//! The symbol service of the profiler protocol, and other plain texts.

use vstd::prelude::*;
use crate::bytes::copy_bytes;
use crate::event::views;
use crate::status::number::{parse_hex, unsigned_of};
use crate::status::response::{Attachment, ContentType, OK, Response, ResponseView};
use crate::status::text::{append, ascii, has_prefix, item_end, lemma_item_end, piece, starts_with, text};

verus! {

/// A text without every `0x` that it begins with.
pub open spec fn strip_0x(s: Seq<u8>) -> Seq<u8>
    decreases s.len(),
{
    if has_prefix(s, ascii("0x"@)) && s.len() >= 2 {
        strip_0x(s.subrange(2, s.len() as int))
    } else {
        s
    }
}

/// The address that an item of a symbol request names; 0 where it names none.
pub open spec fn address_of(item: Seq<u8>) -> nat {
    match unsigned_of(strip_0x(item), true, usize::MAX as nat) {
        Ok(v) => v,
        Err(_) => 0,
    }
}

/// The addresses that a symbol request asks about, from place `from` on:
/// those of its items between `+` signs, in order, without those that name
/// no address.
pub open spec fn addresses_from(body: Seq<u8>, from: int) -> Seq<usize>
    decreases body.len() - from,
{
    if from > body.len() || from < 0 {
        Seq::empty()
    } else {
        let end = item_end(body, from, 43);
        let a = address_of(body.subrange(from, end));
        let first = if a != 0 { seq![a as usize] } else { Seq::empty() };
        if from <= end < body.len() {
            first + addresses_from(body, end + 1)
        } else {
            first
        }
    }
}

/// A text without every `0x` that it begins with.
fn strip_prefixes(item: &[u8]) -> (r: Vec<u8>)
    ensures
        r@ == strip_0x(item@),
{
    proof {
        reveal_strlit("0x");
    }
    let mut from: usize = 0;
    assert(item@.subrange(0, item.len() as int) =~= item@);
    loop
        invariant
            from <= item.len(),
            strip_0x(item@) == strip_0x(item@.subrange(from as int, item.len() as int)),
        decreases item.len() - from,
    {
        proof {
            reveal_strlit("0x");
        }
        let rest = piece(item, from, item.len());
        if rest.len() >= 2 && starts_with(rest.as_slice(), text("0x")) {
            proof {
                assert(rest@.subrange(2, rest@.len() as int) =~= item@.subrange(
                    from + 2,
                    item.len() as int,
                ));
            }
            from = from + 2;
        } else {
            return rest;
        }
    }
}

/// The addresses that a symbol request asks about.
pub fn symbol_addresses(body: &[u8]) -> (r: Vec<usize>)
    ensures
        r@ == addresses_from(body@, 0),
{
    let mut r: Vec<usize> = Vec::new();
    let mut from: usize = 0;
    assert(r@ + addresses_from(body@, 0) =~= addresses_from(body@, 0));
    loop
        invariant
            from <= body.len(),
            addresses_from(body@, 0) == r@ + addresses_from(body@, from as int),
        decreases body.len() - from,
    {
        let mut end: usize = from;
        while end < body.len() && body[end] != 43
            invariant
                from <= end <= body.len(),
                item_end(body@, from as int, 43) == item_end(body@, end as int, 43),
            decreases body.len() - end,
        {
            end = end + 1;
        }
        let item = piece(body, from, end);
        let stripped = strip_prefixes(item.as_slice());
        let addr: usize = match parse_hex(stripped.as_slice()) {
            Ok(a) => a,
            Err(_) => 0,
        };
        let ghost before = r@;
        if addr != 0 {
            r.push(addr);
        }
        proof {
            lemma_item_end(body@, from as int, 43);
            assert(end as int == item_end(body@, from as int, 43));
            assert(addr as nat == address_of(item@));
            let first = if addr != 0 { seq![addr] } else { Seq::<usize>::empty() };
            assert(r@ =~= before + first);
            if end < body.len() {
                assert(before + (first + addresses_from(body@, end + 1)) =~= (before + first)
                    + addresses_from(body@, end + 1));
            } else {
                assert(before + first =~= (before + first) + Seq::<usize>::empty());
            }
        }
        if end >= body.len() {
            proof {
                assert(addresses_from(body@, 0) =~= r@);
            }
            return r;
        }
        from = end + 1;
    }
}

/// The hexadecimal digits of a number, in lower case and without leading zeros.
pub open spec fn hex_of(n: nat) -> Seq<u8>
    decreases n,
{
    let d = n % 16;
    let digit = if d < 10 { (48 + d) as u8 } else { (87 + d) as u8 };
    if n < 16 {
        seq![digit]
    } else {
        hex_of(n / 16).push(digit)
    }
}

/// The hexadecimal digits of a number.
pub fn hex(n: usize) -> (r: Vec<u8>)
    ensures
        r@ == hex_of(n as nat),
{
    let mut digits: Vec<u8> = Vec::new();
    let mut m: usize = n;
    assert(hex_of(n as nat) + digits@.reverse() =~= hex_of(n as nat));
    while m >= 16
        invariant
            hex_of(n as nat) == hex_of(m as nat) + digits@.reverse(),
        decreases m,
    {
        let d = m % 16;
        let digit: u8 = if d < 10 { 48 + d as u8 } else { 87 + d as u8 };
        proof {
            assert(digits@.push(digit).reverse() =~= seq![digit] + digits@.reverse());
            assert(hex_of((m / 16) as nat).push(digit) + digits@.reverse() =~= hex_of((m / 16) as nat)
                + (seq![digit] + digits@.reverse()));
        }
        digits.push(digit);
        m = m / 16;
    }
    let digit: u8 = if m < 10 { 48 + m as u8 } else { 87 + m as u8 };
    proof {
        assert(digits@.push(digit).reverse() =~= seq![digit] + digits@.reverse());
    }
    digits.push(digit);
    crate::vecs::reversed(digits)
}

/// An address and the names of the functions found at it: more than one
/// where calls were inlined.
#[derive(Debug)]
pub struct Resolved {
    pub address: usize,
    pub names: Vec<Vec<u8>>,
}

/// The mathematical value of a `Resolved`.
pub struct ResolvedView {
    pub address: usize,
    pub names: Seq<Seq<u8>>,
}

impl View for Resolved {
    type V = ResolvedView;

    open spec fn view(&self) -> ResolvedView {
        ResolvedView { address: self.address, names: views(self.names@) }
    }
}

/// Names, with `--` between two of them.
pub open spec fn joined(names: Seq<Seq<u8>>) -> Seq<u8>
    decreases names.len(),
{
    if names.len() == 0 {
        Seq::empty()
    } else if names.len() == 1 {
        names[0]
    } else {
        joined(names.drop_last()) + ascii("--"@) + names.last()
    }
}

/// The line for an address: the address in hexadecimal, a space, and the
/// names found at it, or `??` where none was found.
pub open spec fn symbol_line(r: ResolvedView) -> Seq<u8> {
    ascii("0x"@) + hex_of(r.address as nat) + seq![32u8] + (if r.names.len() == 0 {
        ascii("??"@)
    } else {
        joined(r.names)
    }) + seq![10u8]
}

/// The lines for the addresses, in order.
pub open spec fn symbol_lines(all: Seq<ResolvedView>) -> Seq<u8>
    decreases all.len(),
{
    if all.len() == 0 {
        Seq::empty()
    } else {
        symbol_lines(all.drop_last()) + symbol_line(all.last())
    }
}

/// A plain text that must not be taken for anything else.
pub open spec fn plain_text(body: Seq<u8>, content_length: bool) -> ResponseView {
    ResponseView {
        status: OK,
        content_type: ContentType::TextPlain,
        attachment: Attachment::Inline,
        gzip: false,
        nosniff: true,
        content_length,
        body,
    }
}

/// A plain text that must not be taken for anything else.
fn plain_text_response(body: Vec<u8>, content_length: bool) -> (r: Response)
    ensures
        r@ == plain_text(body@, content_length),
{
    Response {
        status: OK,
        content_type: ContentType::TextPlain,
        attachment: Attachment::Inline,
        gzip: false,
        nosniff: true,
        content_length,
        body,
    }
}

/// Appends the line for an address to `to`.
fn append_line(to: &mut Vec<u8>, r: &Resolved)
    ensures
        final(to)@ == old(to)@ + symbol_line(r@),
{
    proof {
        reveal_strlit("0x");
        reveal_strlit("??");
    }
    let ghost before = to@;
    append(to, text("0x"));
    let digits = hex(r.address);
    append(to, digits.as_slice());
    to.push(32u8);
    let ghost head = to@;
    if r.names.len() == 0 {
        append(to, text("??"));
    } else {
        let ghost names = views(r.names@);
        let mut i: usize = 0;
        proof {
            assert(names.take(0) =~= Seq::empty());
            assert(head + joined(names.take(0)) =~= head);
        }
        while i < r.names.len()
            invariant
                i <= r.names.len(),
                names == views(r.names@),
                to@ == head + joined(names.take(i as int)),
            decreases r.names.len() - i,
        {
            proof {
                reveal_strlit("--");
                assert(names.take(i + 1).drop_last() =~= names.take(i as int));
                assert(names.take(i + 1).last() == names[i as int]);
                assert(names.take(i + 1)[0] == names[0]);
            }
            if i > 0 {
                append(to, text("--"));
            }
            append(to, r.names[i].as_slice());
            proof {
                if i == 0 {
                    assert(to@ =~= head + names[0]);
                } else {
                    assert(to@ =~= head + (joined(names.take(i as int)) + ascii("--"@) + names[i as int]));
                }
            }
            i = i + 1;
        }
        proof {
            assert(names.take(names.len() as int) =~= names);
        }
    }
    to.push(10u8);
    proof {
        let tail = if r@.names.len() == 0 { ascii("??"@) } else { joined(r@.names) };
        assert(to@ =~= before + (ascii("0x"@) + hex_of(r.address as nat) + seq![32u8] + tail + seq![10u8]));
    }
}

/// The answer to a symbol request, from the names found at its addresses:
/// one line for each address.
pub fn get_symbol(resolved: &Vec<Resolved>) -> (r: Response)
    ensures
        r@ == plain_text(symbol_lines(views(resolved@)), true),
{
    let ghost all = views(resolved@);
    let mut body: Vec<u8> = Vec::new();
    let mut i: usize = 0;
    proof {
        assert(all.take(0) =~= Seq::empty());
    }
    while i < resolved.len()
        invariant
            i <= resolved.len(),
            all == views(resolved@),
            body@ == symbol_lines(all.take(i as int)),
        decreases resolved.len() - i,
    {
        proof {
            assert(all.take(i + 1).drop_last() =~= all.take(i as int));
            assert(all.take(i + 1).last() == all[i as int]);
        }
        append_line(&mut body, &resolved[i]);
        i = i + 1;
    }
    proof {
        assert(all.take(all.len() as int) =~= all);
    }
    plain_text_response(body, true)
}

/// The answer to the question how many symbols there are. The number is
/// not known; the profiler only wants to know that it is not 0.
pub fn get_symbol_count() -> (r: Response)
    ensures
        r@ == plain_text(ascii("num_symbols: 1\n"@), true),
{
    proof {
        reveal_strlit("num_symbols: 1\n");
    }
    plain_text_response(copy_bytes(text("num_symbols: 1\n")), true)
}

/// The arguments of a command line, each with a zero byte after it.
pub open spec fn cmdline_of(args: Seq<Seq<u8>>) -> Seq<u8>
    decreases args.len(),
{
    if args.len() == 0 {
        Seq::empty()
    } else {
        cmdline_of(args.drop_last()) + args.last() + seq![0u8]
    }
}

/// The answer with the command line that the node was started with.
pub fn get_cmdline(args: &Vec<Vec<u8>>) -> (r: Response)
    ensures
        r@ == plain_text(cmdline_of(views(args@)), false),
{
    let ghost all = views(args@);
    let mut body: Vec<u8> = Vec::new();
    let mut i: usize = 0;
    proof {
        assert(all.take(0) =~= Seq::empty());
    }
    while i < args.len()
        invariant
            i <= args.len(),
            all == views(args@),
            body@ == cmdline_of(all.take(i as int)),
        decreases args.len() - i,
    {
        proof {
            assert(all.take(i + 1).drop_last() =~= all.take(i as int));
            assert(all.take(i + 1).last() == all[i as int]);
        }
        append(&mut body, args[i].as_slice());
        body.push(0u8);
        i = i + 1;
    }
    proof {
        assert(all.take(all.len() as int) =~= all);
    }
    plain_text_response(body, false)
}

/// The answer with the name of the storage engine.
pub fn get_engine_type(engine_type: &[u8]) -> (r: Response)
    ensures
        r@ == (ResponseView { nosniff: false, ..plain_text(engine_type@, true) }),
{
    Response {
        status: OK,
        content_type: ContentType::TextPlain,
        attachment: Attachment::Inline,
        gzip: false,
        nosniff: false,
        content_length: true,
        body: copy_bytes(engine_type),
    }
}

} // verus!
