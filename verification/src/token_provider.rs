use vstd::prelude::*;

verus! {

/// A group of topics that share one (optional) token.
pub type Chunk = (Vec<String>, Option<String>);

/// The view of a group of topics and its token.
pub type ChunkView = (Seq<Seq<char>>, Option<Seq<char>>);

/// `chunks` holds one group per topic of `topics`, in order, each group made of
/// that topic alone.
pub open spec fn one_chunk_per_topic(topics: Seq<Seq<char>>, chunks: Seq<ChunkView>) -> bool {
    &&& chunks.len() == topics.len()
    &&& forall|i: int| 0 <= i < topics.len() ==> (#[trigger] chunks[i]).0 == seq![topics[i]]
}

/// `chunks` is the single group of all of `topics`, with the token `token`.
pub open spec fn one_chunk_for_all(
    topics: Seq<Seq<char>>,
    token: Option<Seq<char>>,
    chunks: Seq<ChunkView>,
) -> bool {
    chunks == seq![(topics, token)]
}

/// The topics of all groups, in order.
pub open spec fn flatten_chunks(chunks: Seq<ChunkView>) -> Seq<Seq<char>>
    decreases chunks.len(),
{
    if chunks.len() == 0 {
        seq![]
    } else {
        flatten_chunks(chunks.drop_last()) + chunks.last().0
    }
}

/// The topics of two lists of groups are those of the first, then those of the
/// second.
pub proof fn lemma_flatten_chunks_append(a: Seq<ChunkView>, b: Seq<ChunkView>)
    ensures
        flatten_chunks(a + b) == flatten_chunks(a) + flatten_chunks(b),
    decreases b.len(),
{
    if b.len() == 0 {
        assert(a + b =~= a);
    } else {
        lemma_flatten_chunks_append(a, b.drop_last());
        assert((a + b).drop_last() =~= a + b.drop_last());
    }
}

/// The topics of a single group are its topics.
pub proof fn lemma_flatten_single(x: ChunkView)
    ensures
        flatten_chunks(seq![x]) == x.0,
{
    let e = Seq::<ChunkView>::empty();
    assert(seq![x].drop_last() =~= e);
    assert(flatten_chunks(e) == Seq::<Seq<char>>::empty());
    assert(flatten_chunks(seq![x]) == flatten_chunks(e) + x.0);
    assert(Seq::<Seq<char>>::empty() + x.0 =~= x.0);
}

/// `answers` answers the first of `n` topics in order: each answer is `Ok` but
/// the last, which is an error where the answers stop before the end.
pub open spec fn answers_in_order<E>(n: nat, answers: Seq<Result<Option<String>, E>>) -> bool {
    &&& answers.len() <= n
    &&& forall|i: int| 0 <= i < answers.len() - 1 ==> (#[trigger] answers[i]) is Ok
    &&& answers.len() < n ==> answers.len() > 0 && answers.last() is Err
}

/// What the groups of `topics` are, given the provider's answers for them:
/// where every topic got an `Ok`, one group per topic, in order, each topic
/// alone with the token it got; else the error that stopped the answers.
pub open spec fn chunks_spec<E>(
    topics: Seq<Seq<char>>,
    answers: Seq<Result<Option<String>, E>>,
    r: Result<Vec<Chunk>, E>,
) -> bool {
    match r {
        Ok(c) => {
            &&& answers.len() == topics.len()
            &&& forall|i: int| 0 <= i < answers.len() ==> (#[trigger] answers[i]) is Ok
            &&& c.deep_view().len() == topics.len()
            &&& forall|i: int|
                0 <= i < topics.len() ==> (#[trigger] c.deep_view()[i]) == (seq![topics[i]], answers[i]->Ok_0.deep_view())
        },
        Err(e) => answers.len() > 0 && answers.last() == Err::<Option<String>, E>(e),
    }
}

/// The groups of `topics`, given the provider's answers for them in order (see
/// `chunks_spec`): each topic alone with its token, or the error that stopped
/// the answers.
pub fn chunks_from<E>(topics: Vec<String>, answers: Vec<Result<Option<String>, E>>) -> (r: Result<Vec<Chunk>, E>)
    requires
        answers_in_order(topics@.len(), answers@),
    ensures
        chunks_spec(topics.deep_view(), answers@, r),
{
    let ghost av = answers@;
    let n = answers.len();
    if n > 0 {
        let failed = match &answers[n - 1] {
            Ok(_) => false,
            Err(_) => true,
        };
        if failed {
            let mut rest = answers;
            return match rest.pop() {
                Some(Err(e)) => Err(e),
                _ => vstd::pervasive::unreached(),
            };
        }
    }
    let ghost tv = topics.deep_view();
    proof {
        assert forall|j: int| 0 <= j < av.len() implies (#[trigger] av[j]) is Ok by {
            if j < av.len() - 1 {
                assert(av[j] is Ok);
            }
        }
    }
    let mut chunks: Vec<Chunk> = Vec::new();
    let mut i: usize = 0;
    while i < n
        invariant
            n == av.len(),
            n == topics@.len(),
            av == answers@,
            tv == topics.deep_view(),
            i <= n,
            forall|j: int| 0 <= j < av.len() ==> (#[trigger] av[j]) is Ok,
            chunks.deep_view().len() == i,
            forall|j: int| 0 <= j < i ==> (#[trigger] chunks.deep_view()[j]) == (seq![tv[j]], av[j]->Ok_0.deep_view()),
        decreases n - i,
    {
        let token = match &answers[i] {
            Ok(t) => match t {
                Some(s) => Some(s.clone()),
                None => None,
            },
            Err(_) => vstd::pervasive::unreached(),
        };
        let topic = topics[i].clone();
        let one = vec![topic];
        proof {
            assert(token.deep_view() == av[i as int]->Ok_0.deep_view());
            assert(one.deep_view() =~= seq![tv[i as int]]);
        }
        let ghost before = chunks.deep_view();
        chunks.push((one, token));
        proof {
            assert(chunks.deep_view() =~= before.push((seq![tv[i as int]], av[i as int]->Ok_0.deep_view())));
        }
        i += 1;
    }
    Ok(chunks)
}

/// Provides tokens for topics.
///
/// Not every topic needs a token. A token can be valid for several topics:
/// `provide_many` groups topics with the token that they share.
pub trait TokenProvider {
    /// An error when providing a token.
    type Error: std::fmt::Debug;

    /// Provides an appropriate token for `topic`, or none at all.
    fn provide_token(&self, topic: &String) -> Result<Option<String>, Self::Error>;

    /// Provides tokens for `topics` in groups. By default it asks
    /// `provide_token` for each topic in turn, and each answer is what
    /// `provide_token` gave for that topic; it stops at the first error. Then,
    /// as `chunks_from` says, every topic makes a group of its own with the
    /// token it got, or that error comes back. No topics at all give no groups.
    fn provide_many(&self, topics: Vec<String>) -> (r: Result<Vec<Chunk>, Self::Error>)
        default_ensures
            exists|answers: Seq<Result<Option<String>, Self::Error>>|
                #![trigger chunks_spec(topics.deep_view(), answers, r)]
                {
                    &&& answers_in_order(topics@.len(), answers)
                    &&& forall|i: int| 0 <= i < answers.len() ==> call_ensures(Self::provide_token, (self, &topics@[i]), #[trigger] answers[i])
                    &&& chunks_spec(topics.deep_view(), answers, r)
                },
            r is Ok ==> one_chunk_per_topic(topics.deep_view(), r->Ok_0.deep_view()),
            topics@.len() == 0 ==> r is Ok,
            r is Err ==> topics@.len() > 0,
    {
        let mut answers: Vec<Result<Option<String>, Self::Error>> = Vec::new();
        let mut i: usize = 0;
        let mut stopped = false;
        while i < topics.len() && !stopped
            invariant
                i <= topics@.len(),
                !stopped ==> answers@.len() == i,
                stopped ==> answers@.len() == i + 1 && i < topics@.len() && answers@.last() is Err,
                forall|j: int| 0 <= j < i ==> (#[trigger] answers@[j]) is Ok,
                forall|j: int| 0 <= j < answers@.len() ==> call_ensures(Self::provide_token, (self, &topics@[j]), #[trigger] answers@[j]),
            decreases topics@.len() - i, if stopped { 0int } else { 1int },
        {
            let answer = self.provide_token(&topics[i]);
            let failed = match &answer {
                Ok(_) => false,
                Err(_) => true,
            };
            answers.push(answer);
            if failed {
                stopped = true;
            } else {
                i += 1;
            }
        }
        let ghost av = answers@;
        let r = chunks_from(topics, answers);
        proof {
            assert(answers_in_order(topics@.len(), av));
        }
        r
    }
}

} // verus!
