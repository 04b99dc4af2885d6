//! Raw random draws and the dice built on them.
use vstd::prelude::*;

verus! {

/// Draws a uniformly random `u64` from the thread-local generator
/// (`rand::random::<u64>`). Nothing is promised of the value.
#[verifier::external_body]
fn random_u64() -> u64 {
    rand::random::<u64>()
}

/// The face that a raw draw `r` gives on a die with `n_faces` faces:
/// the draw reduced modulo the face count (read as `u64`), plus one.
pub open spec fn face_of_draw(r: u64, n_faces: i64) -> i64 {
    #[verifier::truncate] ((r % (#[verifier::truncate] (n_faces as u64)) + 1) as i64)
}

/// `x` is a face that some draw can give on a die with `n_faces` faces.
pub open spec fn is_face(x: i64, n_faces: i64) -> bool {
    exists|r: u64| face_of_draw(r, n_faces) == x
}

/// Turns a raw draw into a die face.
pub fn face_from_draw(r: u64, n_faces: i64) -> (face: i64)
    requires
        n_faces != 0,
    ensures
        face == face_of_draw(r, n_faces),
{
    let m: u64 = #[verifier::truncate] (n_faces as u64);
    assert(n_faces != 0 ==> n_faces as u64 != 0) by (bit_vector);
    #[verifier::truncate] ((r % m + 1) as i64)
}


/// On a die with a positive number of faces, the faces that can come up are
/// exactly 1 through that number.
pub proof fn lemma_faces_of_positive_die(x: i64, n_faces: i64)
    requires
        n_faces > 0,
    ensures
        is_face(x, n_faces) <==> 1 <= x <= n_faces,
{
    let m = n_faces as u64;
    assert(n_faces > 0 ==> n_faces as u64 == n_faces) by (bit_vector);
    if 1 <= x <= n_faces {
        let r = (x - 1) as u64;
        assert(r == x - 1);
        assert(m == n_faces);
        vstd::arithmetic::div_mod::lemma_small_mod(r as nat, m as nat);
        assert(r % m == r);
        assert(face_of_draw(r, n_faces) == x);
    }
    if is_face(x, n_faces) {
        let r = choose|r: u64| face_of_draw(r, n_faces) == x;
        assert(r % m < m);
    }
}

/// Rolls one die with `n_faces` faces (`n_faces` must not be 0).
pub fn dice(n_faces: i64) -> (face: i64)
    requires
        n_faces != 0,
    ensures
        is_face(face, n_faces),
        n_faces > 0 ==> 1 <= face <= n_faces,
{
    let r = random_u64();
    let face = face_from_draw(r, n_faces);
    proof {
        assert(face_of_draw(r, n_faces) == face);
        if n_faces > 0 {
            lemma_faces_of_positive_die(face, n_faces);
        }
    }
    face
}


/// The deepest level at which an exploding die may still be rolled.
pub const MAX_EXPLOSION_DEPTH: usize = 1000;

/// What an exploding die answers when it keeps exploding past the limit.
pub open spec fn runaway_text() -> Seq<char> {
    "nan mais t'abuse là avec ton dé explosif"@
}

/// The message for a runaway explosion.
pub fn runaway_message() -> (msg: String)
    ensures
        msg@ == runaway_text(),
{
    String::from_str("nan mais t'abuse là avec ton dé explosif")
}

/// `rolls` is what an exploding die started at `depth` can give: every roll but
/// the last satisfies the explosion condition, the last one does not, and no
/// roll happens past the depth limit.
pub open spec fn is_explosion<F: Fn(i64) -> bool>(
    rolls: Seq<i64>,
    n_faces: i64,
    condition: F,
    depth: int,
) -> bool {
    &&& depth <= MAX_EXPLOSION_DEPTH
    &&& 1 <= rolls.len() <= MAX_EXPLOSION_DEPTH + 1 - depth
    &&& forall|i: int| 0 <= i < rolls.len() ==> is_face(#[trigger] rolls[i], n_faces)
    &&& forall|i: int| 0 <= i < rolls.len() - 1 ==> condition.ensures((#[trigger] rolls[i],), true)
    &&& condition.ensures((rolls.last(),), false)
}

/// `rolls` is a run of rolls from `depth` up to the depth limit that all
/// satisfy the explosion condition.
pub open spec fn is_runaway<F: Fn(i64) -> bool>(
    rolls: Seq<i64>,
    n_faces: i64,
    condition: F,
    depth: int,
) -> bool {
    &&& rolls.len() == MAX_EXPLOSION_DEPTH + 1 - depth
    &&& forall|i: int| 0 <= i < rolls.len() ==> is_face(#[trigger] rolls[i], n_faces)
    &&& forall|i: int| 0 <= i < rolls.len() ==> condition.ensures((#[trigger] rolls[i],), true)
}

/// How many rolls an exploding die started at `depth` keeps, when
/// `explodes[i]` tells whether roll `i` met the explosion condition: it
/// stops at the first roll that does not explode; `None` when it would have
/// to roll past depth 1000 (or the answers run out first).
pub open spec fn explosion_len(explodes: Seq<bool>, depth: int) -> Option<nat>
    decreases explodes.len(),
{
    if depth > MAX_EXPLOSION_DEPTH || explodes.len() == 0 {
        None
    } else if !explodes[0] {
        Some(1)
    } else {
        match explosion_len(explodes.drop_first(), depth + 1) {
            Some(k) => Some(k + 1),
            None => None,
        }
    }
}

/// The outcome of an exploding die started at `depth`, given the rolled faces
/// and whether each one met the condition: the faces kept, or the runaway
/// message.
pub open spec fn explosion_result(faces: Seq<i64>, explodes: Seq<bool>, depth: int) -> Result<
    Seq<i64>,
    Seq<char>,
> {
    match explosion_len(explodes, depth) {
        Some(k) => Ok(faces.take(k as int)),
        None => Err(runaway_text()),
    }
}

proof fn lemma_explosion_len_skip(explodes: Seq<bool>, depth: int, i: int)
    requires
        0 <= i <= explodes.len(),
        forall|m: int| 0 <= m < i ==> #[trigger] explodes[m],
        depth + i <= MAX_EXPLOSION_DEPTH + 1,
    ensures
        explosion_len(explodes, depth) == match explosion_len(explodes.skip(i), depth + i) {
            Some(k) => Some(k + i as nat),
            None => None::<nat>,
        },
    decreases i,
{
    if i == 0 {
        assert(explodes.skip(0) =~= explodes);
        match explosion_len(explodes, depth) {
            Some(k) => {},
            None => {},
        }
    } else {
        assert(explodes[0]);
        assert forall|m: int| 0 <= m < i - 1 implies #[trigger] explodes.drop_first()[m] by {
            assert(explodes.drop_first()[m] == explodes[m + 1]);
        }
        lemma_explosion_len_skip(explodes.drop_first(), depth + 1, i - 1);
        assert(explodes.drop_first().skip(i - 1) =~= explodes.skip(i));
    }
}

/// Decides an exploding die from the faces rolled and whether each one met the
/// condition: the faces up to the first that did not explode, or the runaway
/// message when the die would roll past depth 1000.
pub fn explosion_of(faces: &Vec<i64>, explodes: &Vec<bool>, depth: usize) -> (res: Result<
    Vec<i64>,
    String,
>)
    requires
        faces.len() == explodes.len(),
    ensures
        match res {
            Ok(rolls) => explosion_result(faces@, explodes@, depth as int) == Ok::<Seq<i64>, Seq<char>>(
                rolls@,
            ),
            Err(msg) => explosion_result(faces@, explodes@, depth as int) == Err::<Seq<i64>, Seq<char>>(
                msg@,
            ),
        },
{
    if depth > MAX_EXPLOSION_DEPTH {
        return Err(runaway_message());
    }
    let mut i: usize = 0;
    let mut kept: Vec<i64> = Vec::new();
    while i < explodes.len() && depth + i <= MAX_EXPLOSION_DEPTH
        invariant
            faces.len() == explodes.len(),
            i <= explodes.len(),
            depth + i <= MAX_EXPLOSION_DEPTH + 1,
            forall|m: int| 0 <= m < i ==> #[trigger] explodes@[m],
            kept@ == faces@.take(i as int),
        decreases explodes.len() - i,
    {
        kept.push(faces[i]);
        assert(kept@ =~= faces@.take(i + 1));
        if !explodes[i] {
            proof {
                lemma_explosion_len_skip(explodes@, depth as int, i as int);
                assert(explodes@.skip(i as int)[0] == explodes@[i as int]);
            }
            return Ok(kept);
        }
        i = i + 1;
    }
    proof {
        lemma_explosion_len_skip(explodes@, depth as int, i as int);
    }
    Err(runaway_message())
}

/// Rolls an exploding die as [`explode`] does, and also hands back every face
/// that it rolled, in order: the outcome is decided by those faces. They are
/// the kept rolls when the die stops, and a run that reached the depth limit
/// while still exploding when it answers the runaway message (none when
/// `depth` is already past the limit).
pub fn explode_with_rolls<F: Fn(i64) -> bool>(n_faces: i64, condition: F, depth: usize) -> (res: (
    Vec<i64>,
    Result<Vec<i64>, String>,
))
    requires
        n_faces != 0,
        forall|x: i64| condition.requires((x,)),
    ensures
        match res.1 {
            Ok(rolls) => rolls@ == res.0@ && is_explosion(res.0@, n_faces, condition, depth as int),
            Err(msg) => msg@ == runaway_text() && if depth > MAX_EXPLOSION_DEPTH {
                res.0@.len() == 0
            } else {
                is_runaway(res.0@, n_faces, condition, depth as int)
            },
        },
{
    let mut faces: Vec<i64> = Vec::new();
    let mut explodes: Vec<bool> = Vec::new();
    let mut level: usize = depth;
    while level <= MAX_EXPLOSION_DEPTH
        invariant_except_break
            faces.len() == explodes.len(),
            level == depth + faces.len(),
            faces.len() > 0 ==> level <= MAX_EXPLOSION_DEPTH + 1,
            forall|i: int| 0 <= i < faces.len() ==> is_face(#[trigger] faces@[i], n_faces),
            forall|i: int| 0 <= i < faces.len() ==> condition.ensures((faces@[i],), #[trigger] explodes@[i]),
            forall|i: int| 0 <= i < faces.len() ==> #[trigger] explodes@[i],
            n_faces != 0,
            forall|x: i64| condition.requires((x,)),
        ensures
            faces.len() == explodes.len(),
            forall|i: int| 0 <= i < faces.len() ==> is_face(#[trigger] faces@[i], n_faces),
            forall|i: int| 0 <= i < faces.len() ==> condition.ensures((faces@[i],), #[trigger] explodes@[i]),
            forall|i: int| 0 <= i < faces.len() - 1 ==> #[trigger] explodes@[i],
            depth + faces.len() <= MAX_EXPLOSION_DEPTH + 1 || faces.len() == 0,
            (faces.len() > 0 && explodes@[faces.len() - 1]) ==> depth + faces.len() == MAX_EXPLOSION_DEPTH + 1,
            faces.len() == 0 ==> depth > MAX_EXPLOSION_DEPTH,
        decreases MAX_EXPLOSION_DEPTH + 1 - level,
    {
        let r = dice(n_faces);
        let b = condition(r);
        faces.push(r);
        explodes.push(b);
        if !b {
            break;
        }
        level = level + 1;
    }
    let res = explosion_of(&faces, &explodes, depth);
    proof {
        let n = faces.len() as int;
        if n > 0 {
            lemma_explosion_len_skip(explodes@, depth as int, n - 1);
            let rest = explodes@.skip(n - 1);
            assert(rest.len() == 1 && rest[0] == explodes@[n - 1]);
            assert(rest.drop_first().len() == 0);
            if explodes@[n - 1] {
                assert(explosion_len(rest.drop_first(), depth + n) is None);
                assert(explosion_len(rest, depth + n - 1) is None);
                assert(explosion_len(explodes@, depth as int) is None);
            } else {
                assert(explosion_len(rest, depth + n - 1) == Some(1nat));
                assert(explosion_len(explodes@, depth as int) == Some(n as nat));
            }
        }
        match &res {
            Ok(rolls) => {
                assert(n > 0);
                assert(!explodes@[n - 1]);
                assert(rolls@ =~= faces@);
                assert forall|i: int| 0 <= i < n - 1 implies condition.ensures((#[trigger] rolls@[i],), true) by {
                    assert(explodes@[i]);
                }
                assert(condition.ensures((faces@[n - 1],), explodes@[n - 1]));
            },
            Err(_) => {
                if depth <= MAX_EXPLOSION_DEPTH {
                    assert(n > 0);
                    assert(explodes@[n - 1]);
                    assert forall|i: int| 0 <= i < n implies condition.ensures((#[trigger] faces@[i],), true) by {
                        assert(explodes@[i]);
                    }
                    assert(is_runaway(faces@, n_faces, condition, depth as int));
                }
            },
        }
    }
    (faces, res)
}

/// Rolls an exploding die: one die of `n_faces` faces, then, while the last
/// roll satisfies `condition`, one more, starting at `depth`. Rolling past
/// depth 1000 gives the runaway message instead.
pub fn explode<F: Fn(i64) -> bool>(n_faces: i64, condition: F, depth: usize) -> (res: Result<
    Vec<i64>,
    String,
>)
    requires
        n_faces != 0,
        forall|x: i64| condition.requires((x,)),
    ensures
        depth > MAX_EXPLOSION_DEPTH ==> res is Err,
        match res {
            Ok(rolls) => is_explosion(rolls@, n_faces, condition, depth as int),
            Err(msg) => msg@ == runaway_text() && (depth > MAX_EXPLOSION_DEPTH || exists|rolls: Seq<i64>|
                is_runaway(rolls, n_faces, condition, depth as int)),
        },
{
    let (faces, res) = explode_with_rolls(n_faces, condition, depth);
    proof {
        if depth > MAX_EXPLOSION_DEPTH {
            if res is Ok {
                assert(is_explosion(faces@, n_faces, condition, depth as int));
            }
        } else if res is Err {
            assert(is_runaway(faces@, n_faces, condition, depth as int));
        }
    }
    res
}

} // verus!
