//! The solar system bodies between which transfers are searched, and the
//! lower-case names by which a search configuration refers to them.
use vstd::prelude::*;

verus! {

/// A body whose barycentric state the ephemeris provides. `Earth` stands for
/// the Earth-Moon barycenter, which is what the name "earth" selects.
#[derive(Clone, Copy, Debug, PartialEq, Eq, Structural)]
pub enum Body {
    Mercury,
    Venus,
    Earth,
    Mars,
    Jupiter,
    Saturn,
    Uranus,
    Neptune,
}

/// The configuration name of each body.
pub open spec fn body_name(b: Body) -> Seq<char> {
    match b {
        Body::Mercury => "mercury"@,
        Body::Venus => "venus"@,
        Body::Earth => "earth"@,
        Body::Mars => "mars"@,
        Body::Jupiter => "jupiter"@,
        Body::Saturn => "saturn"@,
        Body::Uranus => "uranus"@,
        Body::Neptune => "neptune"@,
    }
}

/// No two bodies share a configuration name, so a name selects at most one
/// body.
pub proof fn lemma_body_names_distinct(x: Body, y: Body)
    ensures
        x != y ==> body_name(x) != body_name(y),
{
    reveal_strlit("mercury");
    reveal_strlit("venus");
    reveal_strlit("earth");
    reveal_strlit("mars");
    reveal_strlit("jupiter");
    reveal_strlit("saturn");
    reveal_strlit("uranus");
    reveal_strlit("neptune");
    let (sx, sy) = (body_name(x), body_name(y));
    assert(x != y ==> sx.len() != sy.len() || sx[0] != sy[0]);
}

/// Looks a body up by its configuration name ("mercury", "venus", "earth",
/// "mars", "jupiter", "saturn", "uranus", "neptune", case-sensitive): the
/// result is the body whose name it is, and `None` for any other name.
pub fn body_from_name(name: &str) -> (res: Option<Body>)
    ensures
        forall|b: Body| #[trigger] body_name(b) == name@ <==> res == Some(b),
        res is None <==> forall|b: Body| #[trigger] body_name(b) != name@,
{
    proof {
        assert forall|x: Body, y: Body| x != y implies body_name(x) != body_name(y) by {
            lemma_body_names_distinct(x, y);
        }
    }
    let owned = name.to_owned();
    if owned == "mercury".to_owned() {
        assert(name@ == body_name(Body::Mercury));
        Some(Body::Mercury)
    } else if owned == "venus".to_owned() {
        assert(name@ == body_name(Body::Venus));
        Some(Body::Venus)
    } else if owned == "earth".to_owned() {
        assert(name@ == body_name(Body::Earth));
        Some(Body::Earth)
    } else if owned == "mars".to_owned() {
        assert(name@ == body_name(Body::Mars));
        Some(Body::Mars)
    } else if owned == "jupiter".to_owned() {
        assert(name@ == body_name(Body::Jupiter));
        Some(Body::Jupiter)
    } else if owned == "saturn".to_owned() {
        assert(name@ == body_name(Body::Saturn));
        Some(Body::Saturn)
    } else if owned == "uranus".to_owned() {
        assert(name@ == body_name(Body::Uranus));
        Some(Body::Uranus)
    } else if owned == "neptune".to_owned() {
        assert(name@ == body_name(Body::Neptune));
        Some(Body::Neptune)
    } else {
        assert forall|b: Body| #[trigger] body_name(b) != name@ by {
            match b {
                Body::Mercury => {},
                Body::Venus => {},
                Body::Earth => {},
                Body::Mars => {},
                Body::Jupiter => {},
                Body::Saturn => {},
                Body::Uranus => {},
                Body::Neptune => {},
            }
        }
        None
    }
}

} // verus!
