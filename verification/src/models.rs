//! The document: a book of chapters, each a title and a sequence of
//! blocks of text.

use crate::ids::{derived_id, random_id, v5_uuid};
use uuid::Uuid;
use vstd::prelude::*;
use vstd::string::StringExecFns;
use vstd::utf8::encode_utf8;

verus! {

/// A moment: seconds since the Unix epoch, and nanoseconds within the
/// second.
#[derive(Debug, Clone, Copy, PartialEq, Eq, Structural)]
pub struct Timestamp {
    pub secs: i64,
    pub nanos: u32,
}

/// A book.
#[derive(Debug, Clone)]
pub struct Book {
    pub id: Uuid,
    pub title: String,
    pub author: String,
    pub dedication: Option<String>,
    pub created_at: Timestamp,
    pub updated_at: Timestamp,
    pub chapters: Vec<Chapter>,
}

/// A chapter: a title and blocks of text, both in reading order.
#[derive(Debug, Clone)]
pub struct Chapter {
    pub id: Uuid,
    pub title: String,
    pub blocks: Vec<Block>,
    pub order: usize,
    pub created_at: Timestamp,
    pub updated_at: Timestamp,
}

/// A unit of a chapter's content.
#[derive(Debug, Clone)]
pub struct Block {
    pub id: Uuid,
    pub content: String,
    pub order: usize,
    pub block_type: BlockType,
}

/// What a block is.
#[derive(Debug, Clone, Copy, PartialEq, Eq, Structural)]
pub enum BlockType {
    Page,
}

/// The current time.
///
/// Trusted: calls `chrono::Utc::now`, which panics where the system's
/// clock stands before 1970, and takes the result apart with `timestamp`
/// and `timestamp_subsec_nanos`; nothing is claimed of the value.
#[verifier::external_body]
pub(crate) fn now() -> (t: Timestamp) {
    let t = chrono::Utc::now();
    Timestamp { secs: t.timestamp(), nanos: t.timestamp_subsec_nanos() }
}

/// The decimal digits of `n` in ASCII, without leading zeros.
pub open spec fn decimal(n: nat) -> Seq<u8>
    decreases n,
{
    if n < 10 {
        seq![(0x30 + n) as u8]
    } else {
        decimal(n / 10).push((0x30 + n % 10) as u8)
    }
}

/// A number in decimal is at least one digit, and digits only.
pub proof fn lemma_decimal_digits(n: nat)
    ensures
        decimal(n).len() >= 1,
        n >= 10 ==> decimal(n).len() >= 2,
        forall|i: int| 0 <= i < decimal(n).len() ==> 0x30 <= #[trigger] decimal(n)[i] <= 0x39,
    decreases n,
{
    if n >= 10 {
        lemma_decimal_digits(n / 10);
    }
}

/// Two numbers with the same digits are the same number.
pub proof fn lemma_decimal_is_one_to_one(a: nat, b: nat)
    requires
        decimal(a) == decimal(b),
    ensures
        a == b,
    decreases a,
{
    lemma_decimal_digits(a);
    lemma_decimal_digits(b);
    if a < 10 {
        assert(decimal(a)[0] == (0x30 + a) as u8);
        if b < 10 {
            assert(decimal(b)[0] == (0x30 + b) as u8);
        }
    } else {
        assert(decimal(a).drop_last() =~= decimal(a / 10));
        assert(decimal(a).last() == (0x30 + a % 10) as u8);
        if b >= 10 {
            assert(decimal(b).drop_last() =~= decimal(b / 10));
            assert(decimal(b).last() == (0x30 + b % 10) as u8);
            lemma_decimal_is_one_to_one(a / 10, b / 10);
        }
    }
}

/// The name a chapter's identifier is derived from: the chapter's
/// position in decimal, a hyphen, and the title in UTF-8.
pub open spec fn chapter_name(order: nat, title: Seq<char>) -> Seq<u8> {
    decimal(order) + seq![0x2Du8] + encode_utf8(title)
}

/// Writes `n` in decimal at the end of `out`.
pub fn push_decimal(out: &mut Vec<u8>, n: usize)
    ensures
        final(out)@ == old(out)@ + decimal(n as nat),
{
    let mut digits: Vec<u8> = Vec::new();
    let mut rest: usize = n;
    while rest >= 10
        invariant
            forall|head: Seq<u8>|
                #![trigger head + decimal(n as nat)]
                head + decimal(n as nat) == head + decimal(rest as nat) + digits@.reverse(),
        decreases rest,
    {
        let d = (rest % 10) as u8 + 0x30;
        proof {
            let before = digits@;
            let after = before.push(d);
            assert forall|head: Seq<u8>| #![trigger head + decimal(n as nat)]
                head + decimal(n as nat) == head + decimal((rest / 10) as nat)
                    + after.reverse() by {
                assert(head + decimal(n as nat) == head + decimal(rest as nat) + before.reverse());
                assert(after.reverse() =~= seq![d] + before.reverse());
                assert(head + decimal(rest as nat) + before.reverse() =~= head + decimal(
                    (rest / 10) as nat,
                ) + after.reverse());
            }
        }
        digits.push(d);
        rest = rest / 10;
    }
    digits.push(rest as u8 + 0x30);
    let ghost tail = digits@.reverse();
    proof {
        let before = digits@.drop_last();
        assert(tail =~= decimal(rest as nat) + before.reverse());
        assert(old(out)@ + decimal(n as nat) == old(out)@ + decimal(rest as nat)
            + before.reverse());
        assert(old(out)@ + decimal(n as nat) =~= old(out)@ + tail);
    }
    let mut i: usize = digits.len();
    while i > 0
        invariant
            i <= digits@.len(),
            tail == digits@.reverse(),
            out@ == old(out)@ + tail.take(digits@.len() - i),
        decreases i,
    {
        i = i - 1;
        out.push(digits[i]);
        proof {
            assert(tail[digits@.len() - 1 - i] == digits@[i as int]);
            assert(out@ =~= old(out)@ + tail.take(digits@.len() - i));
        }
    }
    proof {
        assert(tail.take(digits@.len() as int) =~= tail);
    }
}

/// Copies `bytes` to the end of `out`.
fn push_bytes(out: &mut Vec<u8>, bytes: &[u8])
    ensures
        final(out)@ == old(out)@ + bytes@,
{
    let mut i: usize = 0;
    while i < bytes.len()
        invariant
            i <= bytes@.len(),
            out@ == old(out)@ + bytes@.take(i as int),
        decreases bytes@.len() - i,
    {
        out.push(bytes[i]);
        proof {
            assert(out@ =~= old(out)@ + bytes@.take(i + 1));
        }
        i = i + 1;
    }
    proof {
        assert(bytes@.take(bytes@.len() as int) =~= bytes@);
    }
}

/// The identifier of the chapter at position `order` with the given
/// title, in the book `book_id`: the same for the same three.
pub fn generate_chapter_id(book_id: &Uuid, order: usize, title: &str) -> (id: Uuid)
    ensures
        id == v5_uuid(*book_id, chapter_name(order as nat, title@)),
{
    let mut name: Vec<u8> = Vec::new();
    push_decimal(&mut name, order);
    name.push(0x2D);
    push_bytes(&mut name, title.as_bytes());
    proof {
        assert(name@ =~= chapter_name(order as nat, title@));
    }
    derived_id(book_id, name.as_slice())
}

/// The identifier of the block at position `order` of the chapter
/// `chapter_id`: derived from the position in decimal.
pub fn generate_block_id(chapter_id: &Uuid, order: usize) -> (id: Uuid)
    ensures
        id == v5_uuid(*chapter_id, decimal(order as nat)),
{
    let mut name: Vec<u8> = Vec::new();
    push_decimal(&mut name, order);
    proof {
        assert(name@ =~= decimal(order as nat));
    }
    derived_id(chapter_id, name.as_slice())
}

/// The texts of the blocks, two line feeds between each two.
pub open spec fn joined_contents(blocks: Seq<Block>) -> Seq<char>
    decreases blocks.len(),
{
    if blocks.len() == 0 {
        Seq::empty()
    } else if blocks.len() == 1 {
        blocks[0].content@
    } else {
        joined_contents(blocks.drop_last()) + seq!['\n', '\n'] + blocks.last().content@
    }
}

impl Chapter {
    /// The chapter's text: its blocks, two line feeds between each two.
    pub fn content(&self) -> (out: String)
        ensures
            out@ == joined_contents(self.blocks@),
    {
        let mut out = String::new();
        let mut i: usize = 0;
        proof {
            assert(self.blocks@.take(0) =~= Seq::<Block>::empty());
        }
        while i < self.blocks.len()
            invariant
                i <= self.blocks@.len(),
                out@ == joined_contents(self.blocks@.take(i as int)),
            decreases self.blocks@.len() - i,
        {
            proof {
                reveal_strlit("\n\n");
                assert("\n\n"@ =~= seq!['\n', '\n']);
                let next = self.blocks@.take(i + 1);
                assert(next.drop_last() =~= self.blocks@.take(i as int));
                assert(next.last() == self.blocks@[i as int]);
            }
            if i > 0 {
                out.append("\n\n");
            }
            out.append(self.blocks[i].content.as_str());
            proof {
                if i == 0 {
                    assert(out@ =~= self.blocks@[0].content@);
                }
            }
            i = i + 1;
        }
        proof {
            assert(self.blocks@.take(i as int) =~= self.blocks@);
        }
        out
    }
}

impl Book {
    /// A book without chapters or dedication, with the given identifier,
    /// made at the given moment.
    pub fn with_identity(title: String, author: String, id: Uuid, made: Timestamp) -> (book: Book)
        ensures
            book.id == id,
            book.title == title,
            book.author == author,
            book.dedication is None,
            book.created_at == made,
            book.updated_at == made,
            book.chapters@.len() == 0,
    {
        Book {
            id,
            title,
            author,
            dedication: None,
            created_at: made,
            updated_at: made,
            chapters: Vec::new(),
        }
    }

    /// A new book without chapters or dedication, with a random
    /// identifier, made now.
    pub fn new(title: String, author: String) -> (book: Book)
        ensures
            book.title == title,
            book.author == author,
            book.dedication is None,
            book.created_at == book.updated_at,
            book.chapters@.len() == 0,
    {
        let made = now();
        Book::with_identity(title, author, random_id(), made)
    }

    /// Appends a chapter whose content is one block, at the given moment,
    /// which becomes the moment of the book's last change.
    pub fn add_chapter_at(&mut self, title: String, content: String, at: Timestamp)
        ensures
            final(self).id == old(self).id,
            final(self).title == old(self).title,
            final(self).author == old(self).author,
            final(self).dedication == old(self).dedication,
            final(self).created_at == old(self).created_at,
            final(self).updated_at == at,
            final(self).chapters@.len() == old(self).chapters@.len() + 1,
            final(self).chapters@.take(old(self).chapters@.len() as int) == old(self).chapters@,
            is_new_chapter(final(self).chapters@.last(), old(self).id, old(self).chapters@.len(), title, content, at),
    {
        let order = self.chapters.len();
        let chapter_id = generate_chapter_id(&self.id, order, title.as_str());
        let block = Block {
            id: generate_block_id(&chapter_id, 0),
            content,
            order: 0,
            block_type: BlockType::Page,
        };
        let mut blocks: Vec<Block> = Vec::new();
        blocks.push(block);
        let chapter = Chapter {
            id: chapter_id,
            title,
            blocks,
            order,
            created_at: at,
            updated_at: at,
        };
        self.chapters.push(chapter);
        self.updated_at = at;
        proof {
            assert(self.chapters@.take(order as int) =~= old(self).chapters@);
        }
    }

    /// Appends a chapter whose content is one block, now.
    pub fn add_chapter(&mut self, title: String, content: String)
        ensures
            final(self).id == old(self).id,
            final(self).title == old(self).title,
            final(self).author == old(self).author,
            final(self).dedication == old(self).dedication,
            final(self).created_at == old(self).created_at,
            final(self).chapters@.len() == old(self).chapters@.len() + 1,
            final(self).chapters@.take(old(self).chapters@.len() as int) == old(self).chapters@,
            is_new_chapter(
                final(self).chapters@.last(),
                old(self).id,
                old(self).chapters@.len(),
                title,
                content,
                final(self).updated_at,
            ),
    {
        let at = now();
        self.add_chapter_at(title, content, at);
    }
}

/// Whether `chapter` is the chapter that a book `book_id` gets at
/// position `order` from a title and a content at the moment `at`: one
/// block that holds the content, and identifiers derived from the book's.
pub open spec fn is_new_chapter(
    chapter: Chapter,
    book_id: Uuid,
    order: nat,
    title: String,
    content: String,
    at: Timestamp,
) -> bool {
    &&& chapter.id == v5_uuid(book_id, chapter_name(order, title@))
    &&& chapter.title == title
    &&& chapter.order == order
    &&& chapter.created_at == at
    &&& chapter.updated_at == at
    &&& chapter.blocks@.len() == 1
    &&& chapter.blocks@[0].id == v5_uuid(chapter.id, decimal(0))
    &&& chapter.blocks@[0].content == content
    &&& chapter.blocks@[0].order == 0
    &&& chapter.blocks@[0].block_type == BlockType::Page
}

} // verus!
