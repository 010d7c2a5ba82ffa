use vstd::prelude::*;
use crate::command_identifier::CommandIdentifierTable;
use crate::lex_model::lex_step;
use crate::lex_model::lemma_step_shape;
use crate::lexer::Lexer;
use crate::lexer::token_matches;
use crate::memory_buffer::MemoryBuffer;
use crate::source_manager::FileId;
use crate::source_manager::SourceManager;
use crate::token::Token;
use crate::token::TokenKind;

verus! {

/// Index of the entry of an include stack that yields the next token:
/// the topmost lexer whose next step is not `Eof`, or the bottom entry
/// when every lexer is exhausted. Meaningful for a non-empty stack.
pub open spec fn active_index(stack: Seq<Lexer>) -> int
    decreases stack.len(),
{
    if stack.len() == 0 {
        -1
    } else {
        let top = stack.last();
        let step = lex_step(top.spec_input(), top.spec_cat(), top.st(), false);
        if step.tok.kind != TokenKind::Eof || stack.len() == 1 {
            stack.len() - 1
        } else {
            active_index(stack.drop_last())
        }
    }
}

/// The active index of a non-empty stack names one of its entries.
pub proof fn lemma_active_index_bounds(stack: Seq<Lexer>)
    requires
        stack.len() > 0,
    ensures
        0 <= active_index(stack) < stack.len(),
    decreases stack.len(),
{
    if stack.len() > 1 {
        let top = stack.last();
        let step = lex_step(top.spec_input(), top.spec_cat(), top.st(), false);
        if step.tok.kind == TokenKind::Eof {
            lemma_active_index_bounds(stack.drop_last());
        }
    }
}

/// Drives lexing across `\input`-chained files: owns the source
/// manager, the command-identifier table whose identifiers live as long
/// as the preprocessing session, and the include stack of active
/// lexers. This is also the insertion point where macro expansion would
/// rewrite the token stream; here tokens pass through unexpanded.
pub struct Preprocessor {
    /// Source manager holding every loaded file.
    source_manager: SourceManager,
    /// Stack of active lexers; the last entry is lexed first.
    include_stack: Vec<Lexer>,
    /// Command identifier table shared by all lexers of the session.
    command_identifier_table: CommandIdentifierTable,
}

impl Preprocessor {
    pub closed spec fn spec_source_manager(self) -> SourceManager {
        self.source_manager
    }

    pub closed spec fn spec_stack(self) -> Seq<Lexer> {
        self.include_stack@
    }

    pub closed spec fn spec_table(self) -> Seq<Seq<u8>> {
        self.command_identifier_table@
    }

    /// The manager, the interner, and every stacked lexer are
    /// well-formed.
    pub open spec fn wf(self) -> bool {
        &&& self.spec_source_manager().wf()
        &&& crate::command_identifier::distinct_names(self.spec_table())
        &&& forall|i: int| 0 <= i < self.spec_stack().len() ==> (
        #[trigger] self.spec_stack()[i]).wf()
    }

    /// A fresh preprocessor over a source manager: empty include stack,
    /// empty identifier table.
    pub fn new(source_manager: SourceManager) -> (r: Self)
        requires
            source_manager.wf(),
        ensures
            r.wf(),
            r.spec_source_manager() == source_manager,
            r.spec_stack().len() == 0,
            r.spec_table().len() == 0,
    {
        Self {
            source_manager,
            include_stack: Vec::new(),
            command_identifier_table: CommandIdentifierTable::new(),
        }
    }

    /// Registers a buffer with the session's source manager and reports
    /// its file id; the lexing state is untouched.
    pub fn add_buffer(&mut self, buffer: MemoryBuffer, path: Option<String>) -> (r: FileId)
        requires
            old(self).wf(),
            old(self).spec_source_manager().spec_watermark() + buffer@.len() <= u32::MAX,
            old(self).spec_source_manager().spec_files().len() < u32::MAX,
        ensures
            final(self).wf(),
            r.spec_is_valid(),
            r.spec_as_u32() == old(self).spec_source_manager().spec_files().len(),
            final(self).spec_source_manager().spec_files().len() == old(
                self,
            ).spec_source_manager().spec_files().len() + 1,
            final(self).spec_source_manager().spec_files().last().buffer == buffer,
            final(self).spec_stack() == old(self).spec_stack(),
            final(self).spec_table() == old(self).spec_table(),
    {
        let r = self.source_manager.add_buffer(buffer, path);
        proof {
            assert(self.include_stack == old(self).include_stack);
            assert(self.spec_stack() == old(self).spec_stack());
            assert(old(self).wf());
            assert(self.spec_source_manager().wf());
            assert(crate::command_identifier::distinct_names(self.spec_table()));
            assert(forall|i: int| 0 <= i < self.spec_stack().len() ==> (
            #[trigger] self.spec_stack()[i]).wf());
        }
        r
    }

    /// Next available offset of the session's global source space.
    pub fn next_offset(&self) -> (r: u32)
        ensures
            r == self.spec_source_manager().spec_watermark(),
    {
        self.source_manager.next_offset()
    }

    /// Number of files loaded in the session.
    pub fn file_count(&self) -> (r: usize)
        ensures
            r == self.spec_source_manager().spec_files().len(),
    {
        self.source_manager.file_count()
    }

    /// Pushes a fresh lexer for an already-registered file atop the
    /// include stack: it reads that file's bytes from the start of a
    /// line with plain-TeX default category codes. An unknown file id
    /// changes nothing.
    pub fn enter_file(&mut self, file_id: FileId)
        requires
            old(self).wf(),
        ensures
            final(self).wf(),
            final(self).spec_source_manager() == old(self).spec_source_manager(),
            final(self).spec_table() == old(self).spec_table(),
            ({
                let files = old(self).spec_source_manager().spec_files();
                if file_id.spec_is_valid() && file_id.spec_as_u32() < files.len() {
                    let bytes = files[file_id.spec_as_u32() as int].buffer@;
                    &&& final(self).spec_stack().len() == old(self).spec_stack().len() + 1
                    &&& final(self).spec_stack().drop_last() == old(self).spec_stack()
                    &&& final(self).spec_stack().last().spec_input() == bytes
                    &&& final(self).spec_stack().last().st() == (crate::lex_model::LexSt {
                        pos: 0,
                        at_sol: true,
                        skip: true,
                    })
                    &&& forall|k: u32| #[trigger] crate::category_code::cat_raw(
                        final(self).spec_stack().last().spec_cat(),
                        k,
                    ) == crate::category_code::default_cat_raw(k)
                } else {
                    final(self).spec_stack() == old(self).spec_stack()
                }
            }),
    {
        let bytes = match self.source_manager.get_buffer_data(file_id) {
            Some(buffer) => buffer.chars(),
            None => {
                return;
            },
        };
        proof {
            let files = self.spec_source_manager().spec_files();
            let i = file_id.spec_as_u32() as int;
            assert(files[i].wf());
            assert(bytes@.len() <= u32::MAX);
        }
        let lexer = Lexer::from_bytes(bytes);
        let ghost pre = self.include_stack@;
        self.include_stack.push(lexer);
        proof {
            assert(self.include_stack@.drop_last() =~= pre);
            assert forall|i: int| 0 <= i < self.spec_stack().len() implies (
            #[trigger] self.spec_stack()[i]).wf() by {
                if i < pre.len() {
                    assert(self.spec_stack()[i] == pre[i]);
                    assert(old(self).spec_stack()[i].wf());
                } else {
                    assert(self.spec_stack()[i] == lexer);
                }
            }
        }
    }

    /// Produces the next token of the session. A lexer that reaches
    /// `Eof` above the bottom of the include stack is popped and its
    /// parent resumes; `Eof` is surfaced only from the last remaining
    /// lexer. With no active lexer the call reports `false` and leaves
    /// everything unchanged.
    #[verifier::rlimit(100)]
    #[verifier::spinoff_prover]
    pub fn lex(&mut self, token: &mut Token) -> (r: bool)
        requires
            old(self).wf(),
        ensures
            final(self).wf(),
            final(self).spec_source_manager() == old(self).spec_source_manager(),
            ({
                let stack0 = old(self).spec_stack();
                if stack0.len() == 0 {
                    &&& !r
                    &&& *final(self) == *old(self)
                    &&& *final(token) == *old(token)
                } else {
                    let j = active_index(stack0);
                    let lx = stack0[j];
                    let step = lex_step(lx.spec_input(), lx.spec_cat(), lx.st(), false);
                    &&& r
                    &&& final(self).spec_stack().len() == j + 1
                    &&& (forall|i: int| 0 <= i < j ==> #[trigger] final(self).spec_stack()[i]
                        == stack0[i])
                    &&& final(self).spec_stack()[j].spec_input() == lx.spec_input()
                    &&& final(self).spec_stack()[j].spec_cat() == lx.spec_cat()
                    &&& final(self).spec_stack()[j].st() == step.st
                    &&& token_matches(
                        *final(token),
                        step.tok,
                        old(self).spec_table(),
                        final(self).spec_table(),
                    )
                }
            }),
    {
        let ghost stack0 = self.spec_stack();
        proof {
            if stack0.len() > 0 {
                lemma_active_index_bounds(stack0);
            }
        }
        loop
            invariant
                self.wf(),
                old(self).wf(),
                stack0 == old(self).spec_stack(),
                self.spec_source_manager() == old(self).spec_source_manager(),
                self.spec_table() == old(self).spec_table(),
                stack0.len() == 0 ==> *token == *old(token),
                stack0.len() == 0 ==> *self == *old(self),
                self.spec_stack().len() <= stack0.len(),
                self.spec_stack() == stack0.take(self.spec_stack().len() as int),
                stack0.len() == 0 ==> self.spec_stack().len() == 0,
                stack0.len() > 0 ==> self.spec_stack().len() > 0,
                stack0.len() > 0 ==> active_index(stack0) == active_index(self.spec_stack()),
            decreases self.spec_stack().len(),
        {
            let n = self.include_stack.len();
            if n == 0 {
                return false;
            }
            let ghost cur = self.spec_stack();
            proof {
                lemma_active_index_bounds(cur);
                assert(cur.last() == cur[n - 1]);
            }
            let mut lexer = match self.include_stack.pop() {
                Some(lexer) => lexer,
                None => {
                    proof {
                        assert(false);
                    }
                    vstd::pervasive::unreached()
                },
            };
            proof {
                assert(lexer == cur[n - 1]);
                assert(self.spec_stack() =~= cur.drop_last());
            }
            lexer.lex(token, &mut self.command_identifier_table);

            if token.kind() == TokenKind::Eof && self.include_stack.len() > 0 {
                proof {
                    let lx = cur.last();
                    let step = lex_step(lx.spec_input(), lx.spec_cat(), lx.st(), false);
                    assert(step.tok.kind == TokenKind::Eof);
                    lemma_step_shape(lx.spec_input(), lx.spec_cat(), lx.st(), false);
                    assert(step.tok.data is NoData);
                    assert(self.spec_table() == old(self).spec_table());
                    assert(active_index(cur) == active_index(cur.drop_last()));
                    assert(self.spec_stack() =~= cur.drop_last());
                    assert(cur == stack0.take(cur.len() as int));
                    assert(cur.len() <= stack0.len());
                    assert forall|i: int| 0 <= i < self.spec_stack().len() implies (
                    #[trigger] self.spec_stack()[i]) == stack0[i] by {
                        assert(self.spec_stack() == cur.drop_last());
                        assert(cur.drop_last()[i] == cur[i]);
                        assert(stack0.take(cur.len() as int)[i] == stack0[i]);
                    }
                    assert(self.spec_stack() =~= stack0.take(self.spec_stack().len() as int));
                }
                continue;
            }
            self.include_stack.push(lexer);
            proof {
                let j = active_index(stack0);
                assert(j == active_index(cur));
                assert(j == cur.len() - 1);
                assert(cur[j] == stack0.take(cur.len() as int)[j]);
                assert(stack0[j] == cur[j]);
                assert forall|i: int| 0 <= i < j implies #[trigger] self.spec_stack()[i]
                    == stack0[i] by {
                    assert(self.spec_stack()[i] == cur.drop_last()[i]);
                    assert(cur[i] == stack0.take(cur.len() as int)[i]);
                }
                assert(self.spec_stack()[j] == lexer);
                assert forall|i: int| 0 <= i < self.spec_stack().len() implies (
                #[trigger] self.spec_stack()[i]).wf() by {
                    if i < j {
                        assert(stack0[i].wf());
                    } else {
                        assert(self.spec_stack()[i] == lexer);
                    }
                }
            }
            return true;
        }
    }
}

} // verus!
