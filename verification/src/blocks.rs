//! How a file is divided into blocks, and what its blocks make together.

use vstd::arithmetic::div_mod::{lemma_fundamental_div_mod, lemma_fundamental_div_mod_converse};
use vstd::arithmetic::mul::{lemma_mul_inequality, lemma_mul_is_commutative, lemma_mul_is_distributive_add};
use vstd::prelude::*;

verus! {

/// The number of blocks of `size` bytes that `len` bytes fill, rounded up.
pub open spec fn block_count(len: nat, size: nat) -> nat
    recommends
        size > 0,
{
    if len % size == 0 {
        len / size
    } else {
        len / size + 1
    }
}

/// The position in the file of the first byte of a block.
pub open spec fn block_start(id: nat, size: nat) -> nat {
    size * id
}

/// The position in the file of the last byte of a block: only the last block may be shorter than
/// `size`.
pub open spec fn block_end(id: nat, size: nat, len: nat) -> int {
    if block_start(id, size) + size <= len {
        block_start(id, size) + size - 1
    } else {
        len - 1
    }
}

/// The number of bytes of a block of the file.
pub open spec fn block_len(id: nat, size: nat, len: nat) -> int {
    block_end(id, size, len) - block_start(id, size) + 1
}

/// The part of `content` that block `id` covers.
pub open spec fn block_of<A>(content: Seq<A>, id: nat, size: nat) -> Seq<A> {
    content.subrange(
        block_start(id, size) as int,
        block_end(id, size, content.len()) + 1,
    )
}

/// `file` with the bytes at `offset` and after replaced by `bytes`.
pub open spec fn overwrite<A>(file: Seq<A>, offset: int, bytes: Seq<A>) -> Seq<A> {
    Seq::new(
        file.len(),
        |i: int|
            if offset <= i < offset + bytes.len() {
                bytes[i - offset]
            } else {
                file[i]
            },
    )
}

/// A block starts inside the file exactly where its number is below the number of blocks.
pub proof fn law_blocks_start_inside(id: nat, size: nat, len: nat)
    requires
        size > 0,
    ensures
        id < block_count(len, size) <==> block_start(id, size) < len,
{
    lemma_fundamental_div_mod(len as int, size as int);
    let q = (len / size) as int;
    let r = (len % size) as int;
    assert(len == size * q + r);
    if id <= q {
        lemma_mul_inequality(id as int, q, size as int);
        lemma_mul_is_commutative(id as int, size as int);
        lemma_mul_is_commutative(q, size as int);
    } else {
        lemma_mul_inequality(q + 1, id as int, size as int);
        lemma_mul_is_commutative(id as int, size as int);
        lemma_mul_is_commutative(q + 1, size as int);
        lemma_mul_is_distributive_add(size as int, q, 1);
    }
    if id < q {
        lemma_mul_inequality((id + 1) as int, q, size as int);
        lemma_mul_is_commutative((id + 1) as int, size as int);
        lemma_mul_is_distributive_add(size as int, id as int, 1);
    }
}

/// Every position of the file lies in exactly one block, the one that dividing by the block size
/// gives.
pub proof fn law_position_in_one_block(pos: nat, size: nat, len: nat)
    requires
        size > 0,
        pos < len,
    ensures
        pos / size < block_count(len, size),
        block_start(pos / size, size) <= pos <= block_end(pos / size, size, len),
        forall|id: nat| #[trigger] block_start(id, size) <= pos <= block_end(id, size, len) ==> id == pos / size,
{
    lemma_fundamental_div_mod(pos as int, size as int);
    law_blocks_start_inside(pos / size, size, len);
    assert forall|id: nat| #[trigger] block_start(id, size) <= pos <= block_end(id, size, len) implies id == pos
        / size by {
        lemma_mul_is_commutative(id as int, size as int);
        lemma_fundamental_div_mod_converse(pos as int, size as int, id as int, pos - block_start(id, size));
    }
}

/// Two different blocks have no position in common.
pub proof fn law_blocks_are_disjoint(i: nat, j: nat, size: nat, len: nat)
    requires
        size > 0,
        i < j,
    ensures
        block_end(i, size, len) < block_start(j, size),
{
    lemma_mul_inequality((i + 1) as int, j as int, size as int);
    lemma_mul_is_commutative((i + 1) as int, size as int);
    lemma_mul_is_commutative(j as int, size as int);
    lemma_mul_is_distributive_add(size as int, i as int, 1);
}

/// Every block of the file has at least one byte and at most `size`, and all blocks but the last
/// have exactly `size`.
pub proof fn law_block_lengths(id: nat, size: nat, len: nat)
    requires
        size > 0,
        id < block_count(len, size),
    ensures
        block_start(id, size) <= block_end(id, size, len) < len,
        1 <= block_len(id, size, len) <= size,
        id + 1 < block_count(len, size) ==> block_len(id, size, len) == size,
{
    law_blocks_start_inside(id, size, len);
    law_blocks_start_inside(id + 1, size, len);
    lemma_mul_is_distributive_add(size as int, id as int, 1);
}

/// Writing one block into the file puts that block right and leaves every other block as it was.
pub proof fn law_write_touches_one_block<A>(file: Seq<A>, content: Seq<A>, id: nat, size: nat)
    requires
        size > 0,
        file.len() == content.len(),
        id < block_count(content.len(), size),
    ensures
        ({
            let written = overwrite(file, block_start(id, size) as int, block_of(content, id, size));
            &&& written.len() == file.len()
            &&& block_of(written, id, size) == block_of(content, id, size)
            &&& forall|other: nat|
                other != id && other < block_count(content.len(), size) ==> #[trigger] block_of(written, other, size)
                    == block_of(file, other, size)
        }),
{
    let len = content.len();
    let written = overwrite(file, block_start(id, size) as int, block_of(content, id, size));
    law_block_lengths(id, size, len);
    assert(block_of(written, id, size) =~= block_of(content, id, size));
    assert forall|other: nat| other != id && other < block_count(len, size) implies #[trigger] block_of(
        written,
        other,
        size,
    ) == block_of(file, other, size) by {
        law_block_lengths(other, size, len);
        if other < id {
            law_blocks_are_disjoint(other, id, size, len);
        } else {
            law_blocks_are_disjoint(id, other, size, len);
        }
        assert(block_of(written, other, size) =~= block_of(file, other, size));
    }
}

/// A file of the right length whose every block is right is the whole content.
pub proof fn law_blocks_make_the_file<A>(file: Seq<A>, content: Seq<A>, size: nat)
    requires
        size > 0,
        file.len() == content.len(),
        forall|id: nat|
            id < block_count(content.len(), size) ==> #[trigger] block_of(file, id, size) == block_of(
                content,
                id,
                size,
            ),
    ensures
        file == content,
{
    let len = content.len();
    assert forall|pos: int| 0 <= pos < len implies file[pos] == content[pos] by {
        let p = pos as nat;
        let id = p / size;
        law_position_in_one_block(p, size, len);
        law_block_lengths(id, size, len);
        let at = pos - block_start(id, size);
        assert(block_of(file, id, size)[at] == file[pos]);
        assert(block_of(content, id, size)[at] == content[pos]);
    }
    assert(file =~= content);
}

/// The number of blocks is the least whose blocks together have room for the whole file.
pub proof fn law_blocks_hold_the_file(len: nat, size: nat)
    requires
        size > 0,
    ensures
        size * block_count(len, size) >= len,
        block_count(len, size) > 0 ==> size * (block_count(len, size) - 1) < len,
{
    let count = block_count(len, size);
    law_blocks_start_inside(count, size, len);
    if count > 0 {
        law_blocks_start_inside((count - 1) as nat, size, len);
    }
}

/// A block has the bytes of the file from `size` times its number on, `size` of them or as many as
/// are left.
pub proof fn law_block_has_its_bytes<A>(content: Seq<A>, id: nat, size: nat, i: int)
    requires
        size > 0,
        size * id < content.len(),
    ensures
        block_start(id, size) == size * id,
        block_end(id, size, content.len()) == (if size * id + size <= content.len() {
            size * id + size - 1
        } else {
            content.len() - 1
        }),
        block_len(id, size, content.len()) == block_of(content, id, size).len(),
        block_of(content, id, size).len() == (if size * id + size <= content.len() {
            size as int
        } else {
            content.len() - size * id
        }),
        0 <= i < block_of(content, id, size).len() ==> block_of(content, id, size)[i] == content[size * id + i],
{
}

/// Writing bytes at an offset leaves them there, changes nothing else, and neither lengthens nor
/// shortens the file.
pub proof fn law_write_puts_bytes_in_place<A>(file: Seq<A>, offset: int, bytes: Seq<A>, i: int)
    requires
        0 <= offset,
        offset + bytes.len() <= file.len(),
        0 <= i < file.len(),
    ensures
        overwrite(file, offset, bytes).len() == file.len(),
        overwrite(file, offset, bytes).subrange(offset, offset + bytes.len()) == bytes,
        i < offset || offset + bytes.len() <= i ==> overwrite(file, offset, bytes)[i] == file[i],
{
    assert(overwrite(file, offset, bytes).subrange(offset, offset + bytes.len()) =~= bytes);
}

} // verus!
