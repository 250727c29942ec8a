//! The functions that read files.

use crate::answers::Answers;
use crate::asking::{
    Halt, Query, Question, Stop, answer, answered, came_to, interpolate, interpolated,
    reply_views,
};
use crate::builtins::Builtin;
use crate::error::{Failure, MagError};
use crate::evaluate::evaluation;
use crate::machine::{Done, Machine, Run, fails, noting};
use crate::primitives::{arity, eval_error};
use crate::profile::Counter;
use crate::text::{cat4, same_text};
use crate::value::{Val, Value, val_text, vals};
use vstd::prelude::*;

verus! {

/// Whether a function reads a file.
pub open spec fn reads(builtin: Builtin) -> bool {
    builtin is Read || builtin is ReadJson
}

/// The files that were read, each with the path by which it was asked for first.
pub open spec fn file_views(files: Seq<(String, String)>) -> Seq<(Seq<char>, Seq<char>)> {
    Seq::new(files.len(), |i: int| (files[i].0@, files[i].1@))
}

/// The path by which a file was asked for first, where it was, from index `i` on.
pub open spec fn first_request(
    files: Seq<(Seq<char>, Seq<char>)>,
    full: Seq<char>,
    i: int,
) -> Option<Seq<char>>
    decreases files.len() - i,
{
    if i < 0 || i >= files.len() {
        None
    } else if files[i].0 == full {
        Some(files[i].1)
    } else {
        first_request(files, full, i + 1)
    }
}

/// An evaluation after a file was asked for. A file is read once, and known from then on.
pub open spec fn noting_file(run: Run, full: Seq<char>, path: Seq<char>) -> Run {
    let asked = noting(run, Counter::FileReadRequests);
    if first_request(run.files, full, 0) is Some {
        noting(asked, Counter::FileReadCacheHits)
    } else {
        Run { files: run.files.push((full, path)), ..noting(asked, Counter::FileReadCacheMisses) }
    }
}

/// The path that a call asks for.
pub open spec fn path_argument(builtin: Builtin, args: Seq<Val>) -> Result<Seq<char>, Failure> {
    if builtin is Read {
        if args.len() == 0 || args.len() > 2 {
            Err(Failure::Eval("read requires path and optional interpolation map"@))
        } else {
            match val_text(args[0]) {
                Some(path) => Ok(path),
                None => Err(Failure::Eval("read path must be a string"@)),
            }
        }
    } else if args.len() != 1 {
        Err(Failure::Arity { expected: 1, got: args.len() })
    } else {
        match val_text(args[0]) {
            Some(path) => Ok(path),
            None => Err(Failure::Eval("read_json path must be a string"@)),
        }
    }
}

/// Where a file lies. Texts are looked for in the workspace, documents among the modules too.
pub open spec fn place_query(builtin: Builtin, path: Seq<char>) -> Query {
    if builtin is Read {
        Query::Locate(path)
    } else {
        Query::LocateJson(path)
    }
}

/// An answer with the reason for a failure told of a path.
pub open spec fn explained(
    answer: Result<Val, Halt>,
    what: Seq<char>,
    path: Seq<char>,
) -> Result<Val, Halt> {
    match answer {
        Err(Halt::Failed(Failure::Eval(reason))) => Err(
            Halt::Failed(Failure::Eval(what + path + ": "@ + reason)),
        ),
        other => other,
    }
}

/// What a call makes of the text of a file: the text with named values filled in, or the
/// document that it is.
pub open spec fn read_value(
    replies: Answers,
    builtin: Builtin,
    args: Seq<Val>,
    path: Seq<char>,
    text: Seq<char>,
) -> Result<Val, Halt> {
    if builtin is ReadJson {
        explained(answered(replies, Query::Document(text)), "cannot parse JSON "@, path)
    } else if args.len() == 2 && args[1] is Fields {
        Ok(Val::Str(interpolated(text, args[1]->Fields_0, 0)))
    } else {
        Ok(Val::Str(text))
    }
}

/// Reads a file: finds where it lies, and reads it unless that was done before.
pub open spec fn file_read(run: Run, builtin: Builtin, args: Seq<Val>, replies: Answers) -> Done {
    match path_argument(builtin, args) {
        Err(failure) => fails(run, failure),
        Ok(path) => match answered(replies, place_query(builtin, path)) {
            Err(halt) => Done { run, result: Err(halt) },
            Ok(Val::Str(full)) => {
                let noted = noting_file(run, full, path);
                let requested = match first_request(run.files, full, 0) {
                    Some(first) => first,
                    None => path,
                };
                match explained(answered(replies, Query::File(full)), "cannot read "@, requested) {
                    Err(halt) => Done { run: noted, result: Err(halt) },
                    Ok(Val::Str(text)) => Done {
                        run: noted,
                        result: read_value(replies, builtin, args, path, text),
                    },
                    Ok(_) => fails(noted, Failure::Eval("a file must hold a text"@)),
                }
            },
            Ok(_) => fails(run, Failure::Eval("a place must be a path"@)),
        },
    }
}

/// Explains an answer.
fn explain(answer: Result<Value, Stop>, what: &str, path: &str) -> (result: Result<Value, Stop>)
    ensures
        came_to(result) == explained(came_to(answer), what@, path@),
{
    match answer {
        Err(Stop::Failed(MagError::Eval(reason))) => Err(
            Stop::Failed(MagError::Eval(cat4(what, path, ": ", reason.as_str()))),
        ),
        other => other,
    }
}

/// The path that a call asks for.
fn find_path(target: Builtin, args: &Vec<Value>) -> (path: Result<String, MagError>)
    requires
        reads(target),
    ensures
        path matches Ok(text) ==> path_argument(target, vals(args@)) == Ok::<Seq<char>, Failure>(
            text@,
        ),
        path matches Err(error) ==> path_argument(target, vals(args@)) == Err::<
            Seq<char>,
            Failure,
        >(error@),
{
    let ghost all = vals(args@);
    assert(all.len() == args@.len());
    match target {
        Builtin::Read => {
            if args.len() == 0 || args.len() > 2 {
                return Err(eval_error("read requires path and optional interpolation map"));
            }
            assert(all[0] == args@[0]@);
            match args[0].as_str() {
                None => Err(eval_error("read path must be a string")),
                Some(path) => Ok(path.to_owned()),
            }
        },
        _ => {
            match arity(args, 1) {
                Err(error) => return Err(error),
                Ok(_) => {},
            }
            assert(all[0] == args@[0]@);
            match args[0].as_str() {
                None => Err(eval_error("read_json path must be a string")),
                Some(path) => Ok(path.to_owned()),
            }
        },
    }
}

impl Machine {
    /// Counts a request for a file; gives the path by which it was asked for first.
    fn note_file(&mut self, full: &str, path: &str) -> (first: String)
        ensures
            final(self).run() == noting_file(old(self).run(), full@, path@),
            first@ == (match first_request(old(self).run().files, full@, 0) {
                Some(first) => first,
                None => path@,
            }),
            old(self).level(*final(self)),
    {
        let ghost all = file_views(self.files@);
        self.note(Counter::FileReadRequests);
        let mut i: usize = 0;
        while i < self.files.len()
            invariant
                i <= self.files@.len(),
                all == file_views(self.files@),
                all == old(self).run().files,
                old(self).level(*self),
                self.run() == noting(old(self).run(), Counter::FileReadRequests),
                first_request(all, full@, 0) == first_request(all, full@, i as int),
            decreases self.files@.len() - i,
        {
            assert(all[i as int] == (self.files@[i as int].0@, self.files@[i as int].1@));
            if same_text(self.files[i].0.as_str(), full) {
                let first = self.files[i].1.clone();
                self.note(Counter::FileReadCacheHits);
                return first;
            }
            i = i + 1;
        }
        self.note(Counter::FileReadCacheMisses);
        self.files.push((full.to_owned(), path.to_owned()));
        assert(file_views(self.files@) =~= all.push((full@, path@)));
        path.to_owned()
    }

    /// Reads a file.
    pub fn read_file(&mut self, target: Builtin, args: &Vec<Value>) -> (result: Result<
        Value,
        Stop,
    >)
        requires
            reads(target),
        ensures
            evaluation(final(self).run(), result) == file_read(
                old(self).run(),
                target,
                vals(args@),
                reply_views(old(self).replies@),
            ),
            old(self).level(*final(self)),
    {
        let ghost all = vals(args@);
        assert(all.len() == args@.len());
        let path = match find_path(target, args) {
            Err(error) => return Err(Stop::Failed(error)),
            Ok(path) => path,
        };
        let question = match target {
            Builtin::Read => Question::Locate(path.clone()),
            _ => Question::LocateJson(path.clone()),
        };
        let full = match answer(&self.replies, question) {
            Err(stop) => return Err(stop),
            Ok(Value::Str(full)) => full,
            Ok(_) => return Err(Stop::Failed(eval_error("a place must be a path"))),
        };
        let requested = self.note_file(full.as_str(), path.as_str());
        let content = explain(
            answer(&self.replies, Question::File(full)),
            "cannot read ",
            requested.as_str(),
        );
        let text = match content {
            Err(stop) => return Err(stop),
            Ok(Value::Str(text)) => text,
            Ok(_) => return Err(Stop::Failed(eval_error("a file must hold a text"))),
        };
        match target {
            Builtin::ReadJson => explain(
                answer(&self.replies, Question::Document(text)),
                "cannot parse JSON ",
                path.as_str(),
            ),
            _ => {
                if args.len() == 2 {
                    assert(all[1] == args@[1]@);
                    if let Value::Fields(fields) = &args[1] {
                        return Ok(Value::Str(interpolate(text, fields)));
                    }
                }
                Ok(Value::Str(text))
            },
        }
    }
}

// ---------------------------------------------------------------------------
// Laws
// ---------------------------------------------------------------------------

/// A file that was asked for once is known, and asking for it again only counts that.
pub proof fn lemma_file_read_once(run: Run, full: Seq<char>, path: Seq<char>, again: Seq<char>)
    ensures
        ({
            let once = noting_file(run, full, path);
            &&& first_request(once.files, full, 0) is Some
            &&& noting_file(once, full, again) == noting(
                noting(once, Counter::FileReadRequests),
                Counter::FileReadCacheHits,
            )
        }),
{
    if first_request(run.files, full, 0) is None {
        lemma_new_file(run.files, full, path, 0);
    }
}

proof fn lemma_new_file(
    files: Seq<(Seq<char>, Seq<char>)>,
    full: Seq<char>,
    path: Seq<char>,
    i: int,
)
    requires
        0 <= i <= files.len(),
        first_request(files, full, i) is None,
    ensures
        first_request(files.push((full, path)), full, i) == Some(path),
    decreases files.len() - i,
{
    let more = files.push((full, path));
    if i < files.len() {
        assert(more[i] == files[i]);
        lemma_new_file(files, full, path, i + 1);
    } else {
        assert(more[i] == (full, path));
    }
}

} // verus!
