use vstd::prelude::*;

verus! {

/// Whether every face has at least three corners.
pub open spec fn all_polygons(faces: Seq<Seq<usize>>) -> bool {
    forall|i: int| 0 <= i < faces.len() ==> (#[trigger] faces[i]).len() >= 3
}

/// The point indices of a list of faces.
pub open spec fn face_views(faces: Seq<Vec<usize>>) -> Seq<Seq<usize>> {
    faces.map_values(|f: Vec<usize>| f@)
}

/// The edges of a face as pairs of point indices, going round the face and
/// back to its first edge: `face.len() + 1` pairs, the last equal to the first.
pub open spec fn cyclic_edges(face: Seq<usize>) -> Seq<(usize, usize)> {
    Seq::new(
        (face.len() + 1) as nat,
        |i: int| (face[i % (face.len() as int)], face[(i + 1) % (face.len() as int)]),
    )
}

/// Going round a face ends on the edge it began with, and each edge starts
/// where the one before it ends.
pub proof fn lemma_cyclic_edges_close(face: Seq<usize>)
    requires
        face.len() >= 1,
    ensures
        cyclic_edges(face).len() == face.len() + 1,
        cyclic_edges(face)[face.len() as int] == cyclic_edges(face)[0],
        forall|i: int| 0 <= i < face.len() ==> (#[trigger] cyclic_edges(face)[i]).0 == face[i],
        cyclic_edges(face)[0].1 == face[1int % (face.len() as int)],
        forall|i: int| 0 < i < cyclic_edges(face).len() ==> (#[trigger] cyclic_edges(face)[i]).0
            == cyclic_edges(face)[i - 1].1,
{
    let n = face.len() as int;
    assert(n % n == 0) by (nonlinear_arith)
        requires
            n >= 1,
    ;
    assert((n + 1) % n == 1int % n) by (nonlinear_arith)
        requires
            n >= 1,
    ;
    assert(0int % n == 0) by (nonlinear_arith)
        requires
            n >= 1,
    ;
    assert forall|i: int| 0 <= i < n implies (#[trigger] cyclic_edges(face)[i]).0 == face[i] by {
        assert(i % n == i) by (nonlinear_arith)
            requires
                0 <= i < n,
        ;
    }
}

/// No face is refused from an empty list, and a list with one more face is
/// accepted exactly when the list was and the new face has three corners or
/// more (so triangles are accepted, and faces of one or two corners refused).
pub proof fn lemma_polygons_grow(faces: Seq<Seq<usize>>, f: Seq<usize>)
    ensures
        all_polygons(Seq::<Seq<usize>>::empty()),
        all_polygons(faces.push(f)) == (all_polygons(faces) && f.len() >= 3),
{
    let g = faces.push(f);
    if all_polygons(g) {
        assert(g[faces.len() as int] == f);
        assert forall|i: int| 0 <= i < faces.len() implies (#[trigger] faces[i]).len() >= 3 by {
            assert(g[i] == faces[i]);
        }
    }
    if all_polygons(faces) && f.len() >= 3 {
        assert forall|i: int| 0 <= i < g.len() implies (#[trigger] g[i]).len() >= 3 by {
            if i < faces.len() {
                assert(g[i] == faces[i]);
            }
        }
    }
}

/// Whether every face is a polygon (has at least three corners), as a
/// collision box requires of its faces.
pub fn faces_are_polygons(faces: &Vec<Vec<usize>>) -> (res: bool)
    ensures
        res == all_polygons(face_views(faces@)),
        res == (forall|i: int| 0 <= i < faces@.len() ==> (#[trigger] faces@[i])@.len() >= 3),
{
    let n = faces.len();
    let ghost fv = face_views(faces@);
    let mut i: usize = 0;
    while i < n
        invariant
            i <= n == faces@.len(),
            fv == face_views(faces@),
            forall|k: int| 0 <= k < i ==> (#[trigger] fv[k]).len() >= 3,
        decreases n - i,
    {
        assert(fv[i as int] == faces@[i as int]@);
        if faces[i].len() < 3 {
            return false;
        }
        i = i + 1;
    }
    proof {
        assert forall|i: int| 0 <= i < faces@.len() implies (#[trigger] faces@[i])@.len() >= 3 by {
            assert(fv[i] == faces@[i]@);
        }
    }
    true
}

/// The edges of a face, in the order a collision box walks them (see
/// `cyclic_edges`).
pub fn face_edges(face: &Vec<usize>) -> (res: Vec<(usize, usize)>)
    requires
        face@.len() >= 1,
    ensures
        res@ == cyclic_edges(face@),
{
    let n = face.len();
    let mut res: Vec<(usize, usize)> = Vec::new();
    let mut i: usize = 0;
    while i < n
        invariant
            1 <= n == face@.len(),
            i <= n,
            res@ == cyclic_edges(face@).take(i as int),
        decreases n - i,
    {
        let j = if i + 1 < n {
            i + 1
        } else {
            0
        };
        proof {
            assert((i as int) % (n as int) == i) by (nonlinear_arith)
                requires
                    0 <= i < n,
            ;
            if i + 1 < n {
                assert((i + 1) % (n as int) == i + 1) by (nonlinear_arith)
                    requires
                        0 <= i + 1 < n,
                ;
            } else {
                assert((i + 1) % (n as int) == 0) by (nonlinear_arith)
                    requires
                        i + 1 == n,
                        n >= 1,
                ;
            }
        }
        res.push((face[i], face[j]));
        assert(res@ =~= cyclic_edges(face@).take(i + 1));
        i = i + 1;
    }
    let second = if n > 1 {
        1
    } else {
        0
    };
    proof {
        assert((n as int) % (n as int) == 0) by (nonlinear_arith)
            requires
                n >= 1,
        ;
        if n > 1 {
            assert((n + 1) % (n as int) == 1) by (nonlinear_arith)
                requires
                    n > 1,
            ;
        } else {
            assert((n + 1) % (n as int) == 0) by (nonlinear_arith)
                requires
                    n == 1,
            ;
        }
    }
    res.push((face[0], face[second]));
    assert(res@ =~= cyclic_edges(face@));
    res
}

} // verus!
