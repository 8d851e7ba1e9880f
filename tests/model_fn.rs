use std::future::Future;

use nexosim::scheduler::Scheduler;

trait InputFnTest<'a, M, T, S>: Send + 'static {
    /// The `Future` returned by the asynchronous method.
    type Future: Future<Output = ()> + Send + 'a;
    type Args;

    /// Calls the method.
    fn call(self, model: &'a mut M, arg: Self::Args, scheduler: &'a Scheduler<u32>) -> Self::Future;
}

struct AsyncWithScheduler;

impl<'a, M, T, Fut, F> InputFnTest<'a, M, fn(T), AsyncWithScheduler> for F
where
    M: 'a,
    Fut: Future<Output = ()> + Send + 'a,
    F: FnOnce(&'a mut M, T, &'a Scheduler<u32>) -> Fut + Send + 'static,
{
    type Future = Fut;
    type Args = T;

    fn call(self, model: &'a mut M, arg: Self::Args, scheduler: &'a Scheduler<u32>) -> Self::Future {
        self(model, arg, scheduler)
    }
}

impl<'a, M, T0, T1, Fut, F> InputFnTest<'a, M, fn(T0, T1), AsyncWithScheduler> for F
where
    M: 'a,
    Fut: Future<Output = ()> + Send + 'a,
    F: FnOnce(&'a mut M, T0, T1, &'a Scheduler<u32>) -> Fut + Send + 'static,
{
    type Future = Fut;
    type Args = (T0, T1);

    fn call(self, model: &'a mut M, args: Self::Args, scheduler: &'a Scheduler<u32>) -> Self::Future {
        let (arg0, arg1) = args;
        self(model, arg0, arg1, scheduler)
    }
}

struct TestModel {}

impl TestModel {
    async fn input_fn0(&mut self, _arg0: u32, _: &Scheduler<u32>) {}
    async fn input_fn1(&mut self, _arg0: u32, _arg1: i32, _: &Scheduler<u32>) {}
}

fn test_input_fn_impl_0<T, F: for<'a> InputFnTest<'a, TestModel, fn(T), AsyncWithScheduler>>(_func: F) {}
fn test_input_fn_impl_1<T0, T1, F: for<'a> InputFnTest<'a, TestModel, fn(T0, T1), AsyncWithScheduler>>(_func: F) {}

#[test]
fn test_trait_impls() {
    let _test = TestModel {};
    test_input_fn_impl_0(TestModel::input_fn0);
    test_input_fn_impl_1(TestModel::input_fn1);
}
