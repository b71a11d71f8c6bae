//! The functions that a JIT module knows.

use vstd::prelude::*;
use crate::dynarec::block::{CompiledBlock, block_name};
use crate::dynarec::ir::Callee;
use crate::dynarec::lower::all_callees;
use cranelift::prelude::{types, AbiParam};
use cranelift_jit::JITModule;
use cranelift_module::{Linkage, Module};

verus! {

/// `cranelift_jit::JITModule`: the functions and data that native code is made of.
#[verifier::external_type_specification]
#[verifier::external_body]
pub struct ExJITModule(cranelift_jit::JITModule);

/// What a module knows of a function that takes 64-bit pointers before 32-bit words, in the module's
/// calling convention: its number, whether it is only imported, how many pointers and words it
/// takes, and whether it gives a word back.
pub ghost struct Declaration {
    pub id: u32,
    pub outside: bool,
    pub pointers: usize,
    pub words: usize,
    pub back: bool,
}

/// What a name stands for in a module: such a function, or anything else.
pub ghost enum Named {
    Function(Declaration),
    Other,
}

/// The names of a module.
pub uninterp spec fn declared(m: JITModule) -> Map<Seq<char>, Named>;

/// Whether a name is free for a function, or stands for one that takes and gives back the same.
pub open spec fn accepts(
    names: Map<Seq<char>, Named>,
    name: Seq<char>,
    pointers: usize,
    words: usize,
    back: bool,
) -> bool {
    !names.contains_key(name) || (names[name] matches Named::Function(d) && d.pointers == pointers
        && d.words == words && d.back == back)
}

/// Whether a function under a name is only imported after it was declared once more.
pub open spec fn still_outside(
    names: Map<Seq<char>, Named>,
    name: Seq<char>,
    outside: bool,
) -> bool {
    outside && (names.contains_key(name) && names[name] is Function
        ==> names[name]->Function_0.outside)
}

/// The names after a function was declared under a number.
pub open spec fn with_function(
    names: Map<Seq<char>, Named>,
    name: Seq<char>,
    outside: bool,
    pointers: usize,
    words: usize,
    back: bool,
    id: u32,
) -> Map<Seq<char>, Named> {
    names.insert(
        name,
        Named::Function(
            Declaration {
                id,
                outside: still_outside(names, name, outside),
                pointers,
                words,
                back,
            },
        ),
    )
}

/// The names after a function was refused: one under the same name may have become more than
/// imported.
pub open spec fn refused(
    names: Map<Seq<char>, Named>,
    name: Seq<char>,
    outside: bool,
) -> Map<Seq<char>, Named> {
    if names[name] is Function {
        names.insert(
            name,
            Named::Function(
                Declaration {
                    outside: still_outside(names, name, outside),
                    ..names[name]->Function_0
                },
            ),
        )
    } else {
        names
    }
}

/// `Module::declare_function`: a function under a name, of 64-bit pointers and 32-bit words in the
/// module's calling convention, so that the two counts tell signatures apart. It is refused exactly
/// if the name stands for data or for a function of another signature. A free name gets a number
/// that no other function has, and a known function keeps its number.
#[verifier::external_body]
pub(crate) fn declare_function(
    m: &mut JITModule,
    name: &str,
    outside: bool,
    pointers: usize,
    words: usize,
    back: bool,
) -> (r: Option<u32>)
    requires
        pointers < 16,
        words < 16,
    ensures
        r is Some == accepts(declared(*old(m)), name@, pointers, words, back),
        r matches Some(id) ==> declared(*final(m)) == with_function(
            declared(*old(m)),
            name@,
            outside,
            pointers,
            words,
            back,
            id,
        ),
        r matches Some(id) ==> if declared(*old(m)).contains_key(name@) {
            id == declared(*old(m))[name@]->Function_0.id
        } else {
            forall|other: Seq<char>|
                #![trigger declared(*old(m)).contains_key(other)]
                declared(*old(m)).contains_key(other) && declared(*old(m))[other] is Function
                    ==> declared(*old(m))[other]->Function_0.id != id
        },
        r is None ==> declared(*final(m)) == refused(declared(*old(m)), name@, outside),
{
    let mut sig = m.make_signature();
    sig.params.extend(vec![AbiParam::new(types::I64); pointers]);
    sig.params.extend(vec![AbiParam::new(types::I32); words]);
    sig.returns.extend(vec![AbiParam::new(types::I32); usize::from(back)]);
    let linkage = if outside { Linkage::Import } else { Linkage::Local };
    m.declare_function(name, linkage, &sig).ok().map(|id| id.as_u32())
}

/// Different callees are linked under different names.
pub proof fn law_symbols_are_distinct(f: Callee, g: Callee)
    requires
        f != g,
    ensures
        f.linked_as() != g.linked_as(),
{
    lemma_tag(f);
    lemma_tag(g);
}

/// The length of a callee's name and its last four characters tell the callee.
proof fn lemma_tag(f: Callee)
    ensures
        ({
            let s = f.linked_as();
            let n = s.len();
            match f {
                Callee::Load32 => n == 15 && s[8] == 'l' && s[13] == '3',
                Callee::Store32 => n == 16 && s[8] == 's' && s[14] == '3',
                Callee::Load8 => n == 14 && s[4] == 'b',
                Callee::Store8 => n == 15 && s[8] == 's',
                Callee::Load32Sequential => n == 19 && s[4] == 'b',
                Callee::Store32Sequential => n == 20,
                Callee::Store16 => n == 16 && s[8] == 's' && s[14] == '1',
                Callee::LoadWithIdle16 => n == 25 && s[4] == 'b' && s[23] == '1',
                Callee::LoadWithIdle32 => n == 25 && s[4] == 'b' && s[23] == '3',
                Callee::LoadWithIdle8 => n == 24,
                Callee::SetNextFetchNonseq => n == 25 && s[4] == 's',
                Callee::PayThumbFetchExtraNonseq => n == 32,
                Callee::IdleCycle => n == 14 && s[4] == 'i',
                Callee::ThumbFetchN => n == 17,
                Callee::ChainAbortCheck => n == 21,
                Callee::AbortMidBlock => n == 19 && s[4] == 'a',
            }
        }),
{
    match f {
        Callee::Load32 => reveal_strlit("rba_bus_load_32"),
        Callee::Store32 => reveal_strlit("rba_bus_store_32"),
        Callee::Load8 => reveal_strlit("rba_bus_load_8"),
        Callee::Store8 => reveal_strlit("rba_bus_store_8"),
        Callee::Load32Sequential => reveal_strlit("rba_bus_load_32_seq"),
        Callee::Store32Sequential => reveal_strlit("rba_bus_store_32_seq"),
        Callee::Store16 => reveal_strlit("rba_bus_store_16"),
        Callee::LoadWithIdle16 => reveal_strlit("rba_bus_load_with_idle_16"),
        Callee::LoadWithIdle32 => reveal_strlit("rba_bus_load_with_idle_32"),
        Callee::LoadWithIdle8 => reveal_strlit("rba_bus_load_with_idle_8"),
        Callee::SetNextFetchNonseq => reveal_strlit("rba_set_next_fetch_nonseq"),
        Callee::PayThumbFetchExtraNonseq => reveal_strlit("rba_pay_thumb_fetch_extra_nonseq"),
        Callee::IdleCycle => reveal_strlit("rba_idle_cycle"),
        Callee::ThumbFetchN => reveal_strlit("rba_thumb_fetch_n"),
        Callee::ChainAbortCheck => reveal_strlit("rba_chain_abort_check"),
        Callee::AbortMidBlock => reveal_strlit("rba_abort_mid_block"),
    }
}

/// Whether a module takes the declaration of a callee: a function of a pointer and the callee's
/// words.
pub open spec fn takes_callee(names: Map<Seq<char>, Named>, f: Callee) -> bool {
    accepts(names, f.linked_as(), 1, f.takes() as usize, f.answers())
}

/// The names after a callee was declared under a number.
pub open spec fn with_callee(
    names: Map<Seq<char>, Named>,
    f: Callee,
    id: u32,
) -> Map<Seq<char>, Named> {
    with_function(names, f.linked_as(), true, 1, f.takes() as usize, f.answers(), id)
}

/// The names after the first `k` callees were declared under the given numbers.
pub open spec fn with_callees(
    names: Map<Seq<char>, Named>,
    ids: Seq<u32>,
    k: nat,
) -> Map<Seq<char>, Named>
    decreases k,
{
    if k == 0 {
        names
    } else {
        with_callee(
            with_callees(names, ids, (k - 1) as nat),
            all_callees()[k - 1],
            ids[k - 1],
        )
    }
}

/// Declaring some callees changes nothing about the others.
proof fn lemma_others_stay(names: Map<Seq<char>, Named>, ids: Seq<u32>, k: nat, f: Callee)
    requires
        k <= 16,
        f.place() >= k,
    ensures
        with_callees(names, ids, k).contains_key(f.linked_as()) == names.contains_key(f.linked_as()),
        names.contains_key(f.linked_as()) ==> with_callees(names, ids, k)[f.linked_as()]
            == names[f.linked_as()],
    decreases k,
{
    if k > 0 {
        lemma_others_stay(names, ids, (k - 1) as nat, f);
        let g = all_callees()[k - 1];
        assert(g.place() == k - 1);
        law_symbols_are_distinct(f, g);
    }
}

/// The names after some callees depend on the numbers of those callees only.
proof fn lemma_ids_prefix(names: Map<Seq<char>, Named>, a: Seq<u32>, b: Seq<u32>, k: nat)
    requires
        k <= a.len(),
        k <= b.len(),
        forall|i: int| 0 <= i < k ==> a[i] == b[i],
    ensures
        with_callees(names, a, k) == with_callees(names, b, k),
    decreases k,
{
    if k > 0 {
        lemma_ids_prefix(names, a, b, (k - 1) as nat);
    }
}

/// Whether callee `k` is the first that cannot be declared, with those before it declared under
/// their numbers.
pub open spec fn stuck(
    before: Map<Seq<char>, Named>,
    after: Map<Seq<char>, Named>,
    ids: Seq<u32>,
    k: nat,
) -> bool {
    &&& k < 16
    &&& forall|f: Callee| f.place() < k ==> #[trigger] takes_callee(before, f)
    &&& !takes_callee(before, all_callees()[k as int])
    &&& after == refused(with_callees(before, ids, k), all_callees()[k as int].linked_as(), true)
}

/// Declares every callee in a module and gives their numbers in order; `None` if one of the names
/// stands for something else, and then no callee after that one is declared.
pub fn declare_imports(m: &mut JITModule) -> (r: Option<[u32; 16]>)
    ensures
        r is Some == (forall|f: Callee| #[trigger] takes_callee(declared(*old(m)), f)),
        r matches Some(ids) ==> declared(*final(m)) == with_callees(declared(*old(m)), ids@, 16),
        r is None ==> exists|ids: Seq<u32>, k: nat| #[trigger]
            stuck(declared(*old(m)), declared(*final(m)), ids, k),
{
    let mut ids: [u32; 16] = [0;16];
    let ghost before = declared(*m);
    let mut k: usize = 0;
    while k < 16
        invariant
            k <= 16,
            before == declared(*old(m)),
            declared(*m) == with_callees(before, ids@, k as nat),
            forall|f: Callee| f.place() < k ==> #[trigger] takes_callee(before, f),
        decreases 16 - k,
    {
        let f: Callee = Callee::at(k);
        let ghost ids0 = ids@;
        proof {
            assert(all_callees()[k as int] == f);
            lemma_others_stay(before, ids0, k as nat, f);
            assert(takes_callee(declared(*m), f) == takes_callee(before, f));
        }
        match declare_function(m, f.symbol(), true, 1, f.arity(), f.returns_word()) {
            Some(id) => {
                ids[k] = id;
            },
            None => {
                assert(!takes_callee(before, f));
                assert(stuck(before, declared(*m), ids0, k as nat));
                return None;
            },
        }
        proof {
            lemma_ids_prefix(before, ids0, ids@, k as nat);
            assert forall|g: Callee| g.place() < k + 1 implies #[trigger] takes_callee(before, g) by {
                if g.place() == k {
                    assert(g == f);
                }
            }
        }
        k = k + 1;
    }
    Some(ids)
}

/// Every declared callee is found under its name by its number.
pub proof fn law_callees_are_found(names: Map<Seq<char>, Named>, ids: Seq<u32>, f: Callee)
    ensures
        ({
            let after = with_callees(names, ids, 16);
            &&& after.contains_key(f.linked_as())
            &&& after[f.linked_as()] is Function
            &&& after[f.linked_as()]->Function_0.id == ids[f.place()]
        }),
{
    lemma_found(names, ids, 16, f);
}

proof fn lemma_found(names: Map<Seq<char>, Named>, ids: Seq<u32>, k: nat, f: Callee)
    requires
        f.place() < k <= 16,
    ensures
        ({
            let after = with_callees(names, ids, k);
            &&& after.contains_key(f.linked_as())
            &&& after[f.linked_as()] is Function
            &&& after[f.linked_as()]->Function_0.id == ids[f.place()]
        }),
    decreases k,
{
    let g = all_callees()[k - 1];
    assert(g.place() == k - 1);
    if g != f {
        law_symbols_are_distinct(f, g);
        lemma_found(names, ids, (k - 1) as nat, f);
    }
}

/// Declares the function of a compiled block: four pointers and a word, and a word given back.
pub fn declare_block(m: &mut JITModule, block: &CompiledBlock) -> (r: Option<u32>)
    ensures
        r is Some == accepts(
            declared(*old(m)),
            block_name(block.kind, block.id),
            4,
            1,
            true,
        ),
        r matches Some(id) ==> declared(*final(m)) == with_function(
            declared(*old(m)),
            block_name(block.kind, block.id),
            false,
            4,
            1,
            true,
            id,
        ),
        r is None ==> declared(*final(m)) == refused(
            declared(*old(m)),
            block_name(block.kind, block.id),
            false,
        ),
{
    declare_function(m, block.symbol_name().as_str(), false, 4, 1, true)
}

} // verus!
