//! What names stand for.
use vstd::prelude::*;

use crate::expr::Piece;
use crate::laws::follow::{lemma_node_follows, lemma_pieces};
use crate::model::{
    bound, emit_node, field, index_name, innermost_loop, key_name, loop_scope, resolved, Env,
    Frame, State,
};
use crate::node::Node;
use crate::text::{decimal, digit};

verus! {

proof fn lemma_digits(m: nat, n: nat)
    requires
        m < 10,
        n < 10,
    ensures
        digit(m).len() == 1,
        digit(m) == digit(n) ==> m == n,
{
    reveal_strlit("0");
    reveal_strlit("1");
    reveal_strlit("2");
    reveal_strlit("3");
    reveal_strlit("4");
    reveal_strlit("5");
    reveal_strlit("6");
    reveal_strlit("7");
    reveal_strlit("8");
    reveal_strlit("9");
    assert(digit(m)[0] == digit(n)[0] ==> m == n);
}

/// A number has one decimal notation, and no other number has it.
pub proof fn lemma_decimal_distinct(m: nat, n: nat)
    ensures
        decimal(m).len() > 0,
        decimal(m) == decimal(n) ==> m == n,
    decreases m,
{
    lemma_digits(m % 10, n % 10);
    lemma_digits(n % 10, m % 10);
    if m >= 10 {
        lemma_decimal_distinct(m / 10, n / 10);
        if n >= 10 && decimal(m) == decimal(n) {
            assert(decimal(m).last() == digit(m % 10)[0]);
            assert(decimal(n).last() == digit(n % 10)[0]);
            assert(digit(m % 10) =~= digit(n % 10));
            assert(decimal(m / 10) =~= decimal(m).drop_last());
            assert(decimal(n / 10) =~= decimal(n).drop_last());
        }
    } else if n >= 10 {
        lemma_decimal_nonempty(n / 10);
    }
}

proof fn lemma_decimal_nonempty(n: nat)
    ensures
        decimal(n).len() > 0,
    decreases n,
{
    lemma_digits(n % 10, 0);
    if n >= 10 {
        lemma_decimal_nonempty(n / 10);
    }
}

/// The items and the counters of nested loops all have names of their own.
pub proof fn lemma_loop_names_distinct(i: nat, j: nat)
    ensures
        key_name(i) != index_name(j),
        key_name(i) == key_name(j) ==> i == j,
        index_name(i) == index_name(j) ==> i == j,
{
    reveal_strlit("_key_");
    reveal_strlit("_index_");
    lemma_decimal_distinct(i, j);
    assert(key_name(i)[1] == 'k');
    assert(index_name(j)[1] == 'i');
    assert(decimal(i) =~= key_name(i).skip("_key_"@.len() as int));
    assert(decimal(j) =~= key_name(j).skip("_key_"@.len() as int));
    assert(decimal(i) =~= index_name(i).skip("_index_"@.len() as int));
    assert(decimal(j) =~= index_name(j).skip("_index_"@.len() as int));
}

/// The words that a loop gives a meaning differ.
pub proof fn lemma_loop_words()
    ensures
        "self"@ != "index0"@,
        "self"@ != "index"@,
        "self"@ != "first"@,
        "self"@ != "last"@,
        "self"@ != "key"@,
        "index"@ != "index0"@,
        "first"@ != "index0"@,
        "first"@ != "index"@,
        "last"@ != "index0"@,
        "last"@ != "index"@,
        "last"@ != "first"@,
        "key"@ != "index0"@,
        "key"@ != "index"@,
        "key"@ != "first"@,
        "key"@ != "last"@,
{
    reveal_strlit("self");
    reveal_strlit("index0");
    reveal_strlit("index");
    reveal_strlit("first");
    reveal_strlit("last");
    reveal_strlit("key");
    assert("self"@[0] == 's');
    assert("index"@[0] == 'i');
    assert("index0"@[0] == 'i');
    assert("index"@.len() == 5);
    assert("index0"@.len() == 6);
    assert("first"@[0] == 'f');
    assert("last"@[0] == 'l');
    assert("key"@[0] == 'k');
}

/// In the body of a loop, `index0` is its counter, `index` the counter from one on, `first` and
/// `last` tell whether the item is the first or the last, and `key` is the item, unless the
/// template binds these names itself. The item alone is escaped.
pub proof fn lemma_loop_variables(st: State, id: nat)
    requires
        id == st.scopes.len(),
    ensures
        ({
            let body = st.enter(Frame::Each(id), loop_scope(id, true));
            let key = key_name(id);
            let index = index_name(id);
            let free = |ident: Seq<char>| !bound(body.scopes, ident);
            let code = |ident: Seq<char>| resolved(body.scopes, body.on, ident);
            &&& free("index0"@) ==> code("index0"@) == (index, true)
            &&& free("index"@) ==> code("index"@) == ("("@ + index + " + 1)"@, true)
            &&& free("first"@) ==> code("first"@) == ("("@ + index + " == 0)"@, true)
            &&& free("last"@) ==> code("last"@) == (
                "(("@ + key + ").len() == ("@ + index + " + 1))"@,
                true,
            )
            &&& free("key"@) ==> code("key"@) == (key, false)
        }),
{
    lemma_loop_words();
    let body = st.enter(Frame::Each(id), loop_scope(id, true));
    assert(body.on.last() == Frame::Each(id));
    assert(body.scopes[id as int] == loop_scope(id, true));
}

/// Whether a loop has variables of the name `ident`.
pub open spec fn loop_word(ident: Seq<char>) -> bool {
    ident == "index0"@ || ident == "index"@ || ident == "first"@ || ident == "last"@ || ident
        == "key"@
}

/// A name that the template does not bind, and that is none of a loop's variables, is a field:
/// of the item in the body of a loop, of the value in a `with` block, and of `self` outside of
/// both.
pub proof fn lemma_fields(st: State, ident: Seq<char>)
    requires
        ident != "self"@,
        !bound(st.scopes, ident),
        !loop_word(ident),
    ensures
        st.on.len() == 0 ==> resolved(st.scopes, st.on, ident) == (
            field(st.scopes[0][0], ident),
            false,
        ),
        st.on.len() > 0 ==> resolved(st.scopes, st.on, ident) == (
            field(st.scopes[st.on.last().scope() as int][0], ident),
            false,
        ),
{
}

/// In a `with` block outside of loops, the variables of loops are fields like others.
pub proof fn lemma_no_loop(st: State, ident: Seq<char>)
    requires
        ident != "self"@,
        !bound(st.scopes, ident),
        innermost_loop(st.on) is None,
        st.on.len() > 0,
    ensures
        resolved(st.scopes, st.on, ident) == (
            field(st.scopes[st.on.last().scope() as int][0], ident),
            false,
        ),
{
}

/// The innermost loop is one of the open blocks.
pub proof fn lemma_loop_is_open(on: Seq<Frame>)
    ensures
        innermost_loop(on) matches Some(j) ==> exists|i: int|
            0 <= i < on.len() && (#[trigger] on[i]).scope() == j,
    decreases on.len(),
{
    if on.len() > 0 {
        match on.last() {
            Frame::Each(j) => {
                assert(on[on.len() - 1].scope() == j);
            },
            Frame::With(_) => {
                lemma_loop_is_open(on.drop_last());
                if let Some(j) = innermost_loop(on.drop_last()) {
                    let i = choose|i: int|
                        0 <= i < on.drop_last().len() && (#[trigger] on.drop_last()[i]).scope()
                            == j;
                    assert(on[i].scope() == j);
                }
            },
        }
    }
}

/// In a `with` block inside of a loop, the variables are those of the loop; in a loop inside of
/// another block, they are its own.
pub proof fn lemma_innermost_loop(on: Seq<Frame>, j: nat)
    ensures
        innermost_loop(on.push(Frame::With(j))) == innermost_loop(on),
        innermost_loop(on.push(Frame::Each(j))) == Some(j),
{
    assert(on.push(Frame::With(j)).drop_last() =~= on);
}

/// A name that is bound stands for itself from then on.
pub proof fn lemma_declared(st: State, ident: Seq<char>)
    requires
        st.scopes.len() > 0,
        ident != "self"@,
    ensures
        resolved(st.declare(ident).scopes, st.on, ident) == (ident, false),
{
    let scopes = st.declare(ident).scopes;
    let i = scopes.len() - 1;
    let j = scopes[i].len() - 1;
    assert(scopes[i][j] == ident);
}

/// `self` is the value that the template is generated for, in every block.
pub proof fn lemma_self(env: Env, n: Node, st: State, depth: nat)
    requires
        st.scoped(),
    ensures
        resolved(
            emit_node(env, n, st, depth).scopes,
            emit_node(env, n, st, depth).on,
            "self"@,
        ) == resolved(st.scopes, st.on, "self"@),
{
    let b = emit_node(env, n, st, depth);
    lemma_node_follows(env, n, st, depth);
    if st.scopes.len() == 1 {
        assert(st.scopes.last().is_prefix_of(b.scopes.last()));
        assert(b.scopes[0][0] == st.scopes[0][0]);
    } else {
        assert(st.scopes[0] == b.scopes[0]);
    }
}

/// Which code an expression gives, and what it binds, depends on the names in scope alone.
pub proof fn lemma_pieces_local(a: State, b: State, pieces: Seq<Piece>)
    requires
        a.scopes == b.scopes,
        a.on == b.on,
        a.text == b.text,
    ensures
        a.pieces(pieces).text == b.pieces(pieces).text,
        a.pieces(pieces).scopes == b.pieces(pieces).scopes,
        a.wrapped == b.wrapped ==> a.pieces(pieces).wrapped == b.pieces(pieces).wrapped,
    decreases pieces.len(),
{
    if pieces.len() > 0 {
        lemma_pieces_local(a, b, pieces.drop_last());
        lemma_pieces(a, pieces.drop_last());
        lemma_pieces(b, pieces.drop_last());
    }
}

} // verus!
